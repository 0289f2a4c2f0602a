//! What is read out of text: words, addresses, parameters and the codes of keys.
use vstd::prelude::*;

use crate::controls;
use crate::input::Key;
use crate::pages;
use crate::pages::Page;
use crate::text;
use crate::text::NumberError;
use crate::url;
use crate::url::ParamsView;

verus! {

// ---- Words -------------------------------------------------------------------------------

/// Text without the spaces round it is that text: only spaces go, and all of them.
pub proof fn only_spaces_are_trimmed(before: Seq<char>, t: Seq<char>, after: Seq<char>)
    requires
        forall|k: int| 0 <= k < before.len() ==> #[trigger] text::is_space(before[k]),
        forall|k: int| 0 <= k < after.len() ==> #[trigger] text::is_space(after[k]),
        t.len() > 0,
        !text::is_space(t.first()),
        !text::is_space(t.last()),
    ensures
        text::trimmed(before + t + after) == t,
{
    let s = before + t + after;
    let a = before.len() as int;
    let b = (before.len() + t.len()) as int;
    assert forall|k: int| 0 <= k < a implies #[trigger] text::is_space(s[k]) by {
        assert(s[k] == before[k]);
        assert(text::is_space(before[k]));
    }
    assert forall|k: int| b <= k < s.len() implies #[trigger] text::is_space(s[k]) by {
        assert(s[k] == after[k - b]);
        assert(text::is_space(after[k - b]));
    }
    assert(s[a] == t[0]);
    assert(s[b - 1] == t[t.len() - 1]);
    words_start_behind_spaces(s, 0, a);
    words_end_before_spaces(s, s.len() as int, b);
    assert(s.subrange(a, b) =~= t);
}

proof fn words_start_behind_spaces(s: Seq<char>, i: int, a: int)
    requires
        0 <= i <= a < s.len(),
        !text::is_space(s[a]),
        forall|k: int| i <= k < a ==> #[trigger] text::is_space(s[k]),
    ensures
        text::word_start(s, i) == a,
    decreases a - i,
{
    if i < a {
        assert(text::is_space(s[i]));
        words_start_behind_spaces(s, i + 1, a);
    }
}

proof fn words_end_before_spaces(s: Seq<char>, i: int, b: int)
    requires
        0 < b <= i <= s.len(),
        !text::is_space(s[b - 1]),
        forall|k: int| b <= k < i ==> #[trigger] text::is_space(s[k]),
    ensures
        text::last_end(s, i) == b,
    decreases i - b,
{
    if b < i {
        assert(text::is_space(s[i - 1]));
        words_end_before_spaces(s, i - 1, b);
    }
}

proof fn words_go_on_to_a_space(s: Seq<char>, i: int, b: int)
    requires
        0 <= i <= b <= s.len(),
        b < s.len() ==> text::is_space(s[b]),
        forall|k: int| i <= k < b ==> !#[trigger] text::is_space(s[k]),
    ensures
        text::word_end(s, i) == b,
    decreases b - i,
{
    if i < b {
        assert(!text::is_space(s[i]));
        words_go_on_to_a_space(s, i + 1, b);
    }
}

/// The second of three words that one space each parts is the second word.
pub proof fn second_words_are_second(a: Seq<char>, b: Seq<char>, rest: Seq<char>)
    requires
        a.len() > 0,
        b.len() > 0,
        forall|k: int| 0 <= k < a.len() ==> !#[trigger] text::is_space(a[k]),
        forall|k: int| 0 <= k < b.len() ==> !#[trigger] text::is_space(b[k]),
        rest.len() > 0 ==> text::is_space(rest[0]),
    ensures
        text::second_word(a.push(' ') + b + rest) == Some(b),
        text::second_word(a) is None,
{
    let s = a.push(' ') + b + rest;
    let n = a.len() as int;
    let m = (a.len() + 1 + b.len()) as int;
    assert(s[0] == a[0]);
    assert(!text::is_space(a[0]));
    assert(s[n] == ' ');
    assert forall|k: int| 0 <= k < n implies !#[trigger] text::is_space(s[k]) by {
        assert(s[k] == a[k]);
        assert(!text::is_space(a[k]));
    }
    assert forall|k: int| n + 1 <= k < m implies !#[trigger] text::is_space(s[k]) by {
        assert(s[k] == b[k - n - 1]);
        assert(!text::is_space(b[k - n - 1]));
    }
    if m < s.len() {
        assert(s[m] == rest[0]);
    }
    words_start_behind_spaces(s, 0, 0);
    words_go_on_to_a_space(s, 0, n);
    assert(!text::is_space(s[n + 1])) by {
        assert(s[n + 1] == b[0]);
        assert(!text::is_space(b[0]));
    }
    words_start_behind_spaces(s, n, n + 1);
    words_go_on_to_a_space(s, n + 1, m);
    assert(s.subrange(n + 1, m) =~= b);
    words_start_behind_spaces(a, 0, 0);
    words_go_on_to_a_space(a, 0, n);
}

/// A minus before digits makes the number negative, one below zero included that has no
/// positive counterpart.
pub proof fn signs_are_read(s: Seq<char>, n: int)
    requires
        s.len() > 0,
        '0' <= s[0] <= '9',
        text::number_of(s, 2147483648) == Ok::<int, NumberError>(n),
    ensures
        text::signed_of(seq!['-'] + s) == Some(-n),
        text::number_of(s, 2147483647) == Ok::<int, NumberError>(n) ==> text::signed_of(s) == Some(
            n,
        ),
{
    let t = seq!['-'] + s;
    assert(t.subrange(1, t.len() as int) =~= s);
    assert(t[1] == s[0]);
}

// ---- Addresses ---------------------------------------------------------------------------

/// Whether text could be a host: no part of an address begins in it.
pub open spec fn is_host(h: Seq<char>) -> bool {
    &&& h.len() > 0
    &&& forall|k: int|
        0 <= k < h.len() ==> (#[trigger] h[k]) != '/' && h[k] != '?' && h[k] != '#' && h[k] != ':'
            && !text::is_space(h[k])
}

proof fn hosts_end(s: Seq<char>, i: int, e: int)
    requires
        0 <= i <= e <= s.len(),
        e < s.len() ==> s[e] == '/' || s[e] == '?' || s[e] == '#',
        forall|k: int| i <= k < e ==> (#[trigger] s[k]) != '/' && s[k] != '?' && s[k] != '#',
    ensures
        url::host_end(s, i) == e,
    decreases e - i,
{
    if i < e {
        assert(s[i] != '/');
        hosts_end(s, i + 1, e);
    }
}

proof fn hosts_are_trimmed(h: Seq<char>)
    requires
        is_host(h),
    ensures
        text::trimmed(h) == h,
        !url::has_mark(h),
        !text::begins(h, "ws://"@),
        !text::begins(h, "wss://"@),
        url::host_end(h, 0) == h.len(),
{
    reveal_strlit("ws://");
    reveal_strlit("wss://");
    assert(h[0] != '/');
    assert(h[h.len() - 1] != '/');
    let e = Seq::<char>::empty();
    assert(e + h + e =~= h);
    only_spaces_are_trimmed(e, h, e);
    if url::has_mark(h) {
        let i = choose|i: int| url::mark_at(h, i);
        assert(h[i] != ':');
    }
    if text::begins(h, "ws://"@) {
        assert(h.take(5)[2] == ':');
        assert(h[2] != ':');
    }
    if text::begins(h, "wss://"@) {
        assert(h.take(6)[3] == ':');
        assert(h[3] != ':');
    }
    hosts_end(h, 0, h.len() as int);
}

/// A host alone is reached as the page is, at the path of the game.
pub proof fn hosts_are_addresses(h: Seq<char>)
    requires
        is_host(h),
    ensures
        url::normalized(h, true) == Some("wss://"@ + h + "/ws"@),
        url::normalized(h, false) == Some("ws://"@ + h + "/ws"@),
{
    hosts_are_trimmed(h);
    reveal_strlit("ws");
    reveal_strlit("wss");
    reveal_strlit("://");
    reveal_strlit("ws://");
    reveal_strlit("wss://");
    assert(h.subrange(0, h.len() as int) =~= h);
    assert("ws"@ + "://"@ =~= "ws://"@);
    assert("wss"@ + "://"@ =~= "wss://"@);
}

/// A scheme that is given stays, and so does a path, but for the bare slash.
pub proof fn full_addresses_stay(h: Seq<char>, tail: Seq<char>, secure: bool)
    requires
        is_host(h),
        tail.len() > 0,
        tail[0] == '/' || tail[0] == '?' || tail[0] == '#',
        !text::is_space(tail.last()),
        tail != "/"@,
    ensures
        url::normalized("ws://"@ + h + tail, secure) == Some("ws://"@ + h + tail),
        url::normalized("wss://"@ + h + tail, secure) == Some("wss://"@ + h + tail),
        url::normalized("ws://"@ + h + "/"@, secure) == Some("ws://"@ + h + "/ws"@),
        url::normalized("ws://"@ + h, secure) == Some("ws://"@ + h + "/ws"@),
        url::normalized("wss://"@ + h, secure) == Some("wss://"@ + h + "/ws"@),
{
    reveal_strlit("/");
    let none = Seq::<char>::empty();
    schemes_stay(h, tail, secure);
    schemes_stay(h, "/"@, secure);
    schemes_stay(h, none, secure);
    assert("ws://"@ + h + none =~= "ws://"@ + h);
    assert("wss://"@ + h + none =~= "wss://"@ + h);
}

proof fn schemes_stay(h: Seq<char>, tail: Seq<char>, secure: bool)
    requires
        is_host(h),
        tail.len() > 0 ==> tail[0] == '/' || tail[0] == '?' || tail[0] == '#',
        tail.len() > 0 ==> !text::is_space(tail.last()),
    ensures
        url::normalized("ws://"@ + h + tail, secure) == Some(
            "ws://"@ + h + (if tail.len() == 0 || tail == "/"@ {
                "/ws"@
            } else {
                tail
            }),
        ),
        url::normalized("wss://"@ + h + tail, secure) == Some(
            "wss://"@ + h + (if tail.len() == 0 || tail == "/"@ {
                "/ws"@
            } else {
                tail
            }),
        ),
{
    reveal_strlit("ws");
    reveal_strlit("wss");
    reveal_strlit("://");
    reveal_strlit("ws://");
    reveal_strlit("wss://");
    let none = Seq::<char>::empty();
    let rest = h + tail;
    let n = h.len() as int;
    assert(h[0] != '/');
    assert(h[n - 1] != '/');
    assert forall|k: int| 0 <= k < n implies (#[trigger] rest[k]) != '/' && rest[k] != '?'
        && rest[k] != '#' by {
        assert(rest[k] == h[k]);
    }
    if tail.len() > 0 {
        assert(rest[n] == tail[0]);
    }
    hosts_end(rest, 0, n);
    assert(rest.subrange(0, n) =~= h);
    assert(rest.subrange(n, rest.len() as int) =~= tail);
    let s = "ws://"@ + h + tail;
    let t = "wss://"@ + h + tail;
    assert(s.last() == if tail.len() > 0 {
        tail.last()
    } else {
        h[n - 1]
    });
    assert(t.last() == if tail.len() > 0 {
        tail.last()
    } else {
        h[n - 1]
    });
    assert(none + s + none =~= s);
    assert(none + t + none =~= t);
    only_spaces_are_trimmed(none, s, none);
    only_spaces_are_trimmed(none, t, none);
    assert(s.take(5) =~= "ws://"@);
    assert(t.take(6) =~= "wss://"@);
    assert(!text::begins(t, "ws://"@)) by {
        assert(t.take(5)[2] == 's');
    }
    assert(s.subrange(5, s.len() as int) =~= rest);
    assert(t.subrange(6, t.len() as int) =~= rest);
    assert("ws"@ + "://"@ =~= "ws://"@);
    assert("wss"@ + "://"@ =~= "wss://"@);
}

/// Nothing is no address, and neither is anything with another scheme.
pub proof fn other_schemes_are_refused(raw: Seq<char>, secure: bool)
    requires
        text::trimmed(raw).len() == 0 || (url::has_mark(text::trimmed(raw)) && !text::begins(
            text::trimmed(raw),
            "ws://"@,
        ) && !text::begins(text::trimmed(raw), "wss://"@)),
    ensures
        url::normalized(raw, secure) is None,
{
}

/// The address to load a page from again is its own, with one more parameter.
pub proof fn fresh_addresses_ask_for_more(path: Seq<char>, search: Seq<char>, token: Seq<char>)
    ensures
        text::begins(url::fresh_address(path, search, token), path + search),
        url::fresh_address(path, search, token)[(path.len() + search.len()) as int] == (
        if search.len() == 0 {
            '?'
        } else {
            '&'
        }),
        url::fresh_address(path, search, token).skip((path.len() + search.len()) as int + 1)
            == "qwc_reload="@ + token,
{
    reveal_strlit("?");
    reveal_strlit("&");
    let r = url::fresh_address(path, search, token);
    let n = (path.len() + search.len()) as int;
    assert(r.take(n) =~= path + search);
    assert(r.skip(n + 1) =~= "qwc_reload="@ + token);
}

/// A page that noted how often it was loaded again knows it.
pub proof fn reloads_are_counted(n: nat, rest: Seq<char>)
    requires
        n <= u64::MAX,
    ensures
        url::reloads_noted(Some(text::decimal(n))) == n,
        url::reloads_noted(Some(text::decimal(n) + seq![','] + rest)) == n,
        url::reloads_noted(None) == 0,
{
    let d = text::decimal(n);
    text::numbers_read_back(n, u64::MAX as int);
    numerals_are_digits(n);
    assert forall|k: int| 0 <= k < d.len() implies (#[trigger] d[k]) != ',' by {
        assert('0' <= d[k] <= '9');
    }
    commas_are_found(d, 0, d.len() as int);
    assert(d.subrange(0, d.len() as int) =~= d);
    let s = d + seq![','] + rest;
    assert forall|k: int| 0 <= k < d.len() implies (#[trigger] s[k]) != ',' by {
        assert(s[k] == d[k]);
    }
    commas_are_found(s, 0, d.len() as int);
    assert(s.subrange(0, d.len() as int) =~= d);
}

// ---- Parameters --------------------------------------------------------------------------

/// Parameters are read from left to right, each up to the next separator.
pub proof fn parameters_are_read_in_turn(s: Seq<char>, i: int, e: int, p: ParamsView)
    requires
        0 <= i <= e <= s.len(),
        e < s.len() ==> s[e] == '?' || s[e] == '&',
        forall|k: int| i <= k < e ==> (#[trigger] s[k]) != '?' && s[k] != '&',
    ensures
        e < s.len() ==> url::params_from(s, i, p) == url::params_from(
            s,
            e + 1,
            url::with_part(p, s.subrange(i, e)),
        ),
        e == s.len() ==> url::params_from(s, i, p) == url::with_part(p, s.subrange(i, e)),
{
    parts_end(s, i, e);
}

proof fn parts_end(s: Seq<char>, i: int, e: int)
    requires
        0 <= i <= e <= s.len(),
        e < s.len() ==> s[e] == '?' || s[e] == '&',
        forall|k: int| i <= k < e ==> (#[trigger] s[k]) != '?' && s[k] != '&',
    ensures
        url::part_end(s, i) == e,
    decreases e - i,
{
    if i < e {
        assert(s[i] != '?');
        parts_end(s, i + 1, e);
    }
}

proof fn named_values_are_found(name: Seq<char>, v: Seq<char>)
    ensures
        url::value_of(name + v, name) == Some(v),
{
    assert((name + v).take(name.len() as int) =~= name);
    assert((name + v).subrange(name.len() as int, (name + v).len() as int) =~= v);
}

proof fn other_names_are_not_found(part: Seq<char>, name: Seq<char>, k: int)
    requires
        0 <= k < part.len(),
        0 <= k < name.len(),
        part[k] != name[k],
    ensures
        url::value_of(part, name) is None,
{
    if text::begins(part, name) {
        assert(part.take(name.len() as int)[k] == name[k]);
    }
}

/// Each switch sets its own parameter, unless it says zero, and nothing else.
pub proof fn switches_set_their_parameter(p: ParamsView, v: Seq<char>)
    ensures
        url::with_part(p, "verify="@ + v) == (if v == "0"@ {
            p
        } else {
            ParamsView { verify: true, ..p }
        }),
        url::with_part(p, "walk="@ + v) == (if v == "0"@ {
            p
        } else {
            ParamsView { walk: true, ..p }
        }),
        url::with_part(p, "taglog="@ + v) == (if v == "0"@ {
            p
        } else {
            ParamsView { tag_log: true, ..p }
        }),
        url::with_part(p, "dbg="@ + v) == (if v == "0"@ {
            p
        } else {
            ParamsView { debug: true, ..p }
        }),
        url::with_part(p, "touchtest="@ + v) == (if v == "0"@ {
            p
        } else {
            ParamsView { touch_test: true, ..p }
        }),
{
    names_begin_apart();
    names_are_told_apart("verify="@ + v);
    names_are_told_apart("walk="@ + v);
    names_are_told_apart("taglog="@ + v);
    names_are_told_apart("dbg="@ + v);
    names_are_told_apart("touchtest="@ + v);
    named_values_are_found("verify="@, v);
    named_values_are_found("walk="@, v);
    named_values_are_found("taglog="@, v);
    named_values_are_found("dbg="@, v);
    named_values_are_found("touchtest="@, v);
    assert(("verify="@ + v)[0] == "verify="@[0] && ("verify="@ + v)[1] == "verify="@[1]);
    assert(("walk="@ + v)[0] == "walk="@[0] && ("walk="@ + v)[1] == "walk="@[1]);
    assert(("taglog="@ + v)[0] == "taglog="@[0] && ("taglog="@ + v)[1] == "taglog="@[1]);
    assert(("dbg="@ + v)[0] == "dbg="@[0] && ("dbg="@ + v)[1] == "dbg="@[1]);
    assert(("touchtest="@ + v)[0] == "touchtest="@[0] && ("touchtest="@ + v)[1]
        == "touchtest="@[1]);
}

proof fn names_begin_apart()
    ensures
        "seed="@.len() == 5 && "seed="@[0] == 's' && "seed="@[1] == 'e' && "seed="@[2] == 'e',
        "server="@.len() == 7 && "server="@[0] == 's' && "server="@[1] == 'e' && "server="@[2]
            == 'r',
        "verify="@.len() == 7 && "verify="@[0] == 'v' && "verify="@[1] == 'e',
        "walk="@.len() == 5 && "walk="@[0] == 'w' && "walk="@[1] == 'a',
        "taglog="@.len() == 7 && "taglog="@[0] == 't' && "taglog="@[1] == 'a',
        "touchtest="@.len() == 10 && "touchtest="@[0] == 't' && "touchtest="@[1] == 'o',
        "dbg="@.len() == 4 && "dbg="@[0] == 'd' && "dbg="@[1] == 'b',
        "npcs="@.len() == 5 && "npcs="@[0] == 'n' && "npcs="@[1] == 'p',
{
    reveal_strlit("seed=");
    reveal_strlit("server=");
    reveal_strlit("verify=");
    reveal_strlit("walk=");
    reveal_strlit("taglog=");
    reveal_strlit("touchtest=");
    reveal_strlit("dbg=");
    reveal_strlit("npcs=");
}

proof fn names_are_told_apart(part: Seq<char>)
    requires
        part.len() >= 3,
    ensures
        part[0] != 's' ==> url::value_of(part, "seed="@) is None && url::value_of(part, "server="@)
            is None,
        part[2] != 'e' ==> url::value_of(part, "seed="@) is None,
        part[2] != 'r' ==> url::value_of(part, "server="@) is None,
        part[0] != 'v' ==> url::value_of(part, "verify="@) is None,
        part[0] != 'w' ==> url::value_of(part, "walk="@) is None,
        part[0] != 't' ==> url::value_of(part, "taglog="@) is None && url::value_of(
            part,
            "touchtest="@,
        ) is None,
        part[1] != 'a' ==> url::value_of(part, "taglog="@) is None,
        part[1] != 'o' ==> url::value_of(part, "touchtest="@) is None,
        part[0] != 'd' ==> url::value_of(part, "dbg="@) is None,
        part[0] != 'n' ==> url::value_of(part, "npcs="@) is None,
{
    names_begin_apart();
    if part[0] != 's' {
        other_names_are_not_found(part, "seed="@, 0);
        other_names_are_not_found(part, "server="@, 0);
    }
    if part[2] != 'e' {
        other_names_are_not_found(part, "seed="@, 2);
    }
    if part[2] != 'r' {
        other_names_are_not_found(part, "server="@, 2);
    }
    if part[0] != 'v' {
        other_names_are_not_found(part, "verify="@, 0);
    }
    if part[0] != 'w' {
        other_names_are_not_found(part, "walk="@, 0);
    }
    if part[0] != 't' {
        other_names_are_not_found(part, "taglog="@, 0);
        other_names_are_not_found(part, "touchtest="@, 0);
    }
    if part[1] != 'a' {
        other_names_are_not_found(part, "taglog="@, 1);
    }
    if part[1] != 'o' {
        other_names_are_not_found(part, "touchtest="@, 1);
    }
    if part[0] != 'd' {
        other_names_are_not_found(part, "dbg="@, 0);
    }
    if part[0] != 'n' {
        other_names_are_not_found(part, "npcs="@, 0);
    }
}

/// The seed is a number, up to a fragment; a server is named as it is, unless it is not
/// named at all. Neither sets anything else.
pub proof fn seeds_and_servers_are_read(p: ParamsView, n: nat, v: Seq<char>)
    requires
        n <= u64::MAX,
    ensures
        url::with_part(p, "seed="@ + text::decimal(n)) == (ParamsView { seed: n as u64, ..p }),
        v.len() > 0 ==> url::with_part(p, "server="@ + v) == (ParamsView { server: Some(v), ..p }),
        v.len() == 0 ==> url::with_part(p, "server="@ + v) == p,
        url::no_params().seed == 1337,
        url::no_params().server is None,
        url::no_params().npcs is None,
        !url::no_params().verify && !url::no_params().walk && !url::no_params().tag_log
            && !url::no_params().debug && !url::no_params().touch_test,
{
    let d = text::decimal(n);
    names_begin_apart();
    named_values_are_found("seed="@, d);
    text::numbers_read_back(n, u64::MAX as int);
    numerals_are_digits(n);
    no_other_is_found(d, '#', 0);
    assert(d.subrange(0, d.len() as int) =~= d);
    let part = "server="@ + v;
    assert(part[0] == "server="@[0] && part[1] == "server="@[1] && part[2] == "server="@[2]);
    names_are_told_apart(part);
    named_values_are_found("server="@, v);
}

/// NPCs are asked for by a number, and how far apart behind a colon.
pub proof fn npc_loads_are_read(p: ParamsView, n: nat, apart: Seq<char>)
    requires
        0 < n <= u32::MAX,
    ensures
        url::with_part(p, "npcs="@ + text::decimal(n)) == (ParamsView {
            npcs: Some((n as u32, Seq::empty())),
            ..p
        }),
        url::with_part(p, "npcs="@ + (text::decimal(n) + seq![':'] + apart)) == (ParamsView {
            npcs: Some((n as u32, apart)),
            ..p
        }),
        url::with_part(p, "npcs="@ + "0"@) == p,
{
    reveal_strlit("0");
    let d = text::decimal(n);
    let e = d + seq![':'] + apart;
    names_begin_apart();
    named_values_are_found("npcs="@, d);
    named_values_are_found("npcs="@, e);
    named_values_are_found("npcs="@, "0"@);
    let a = "npcs="@ + d;
    let b = "npcs="@ + e;
    let c = "npcs="@ + "0"@;
    assert(a[0] == "npcs="@[0] && a[1] == "npcs="@[1]);
    assert(b[0] == "npcs="@[0] && b[1] == "npcs="@[1]);
    assert(c[0] == "npcs="@[0] && c[1] == "npcs="@[1]);
    names_are_told_apart(a);
    names_are_told_apart(b);
    names_are_told_apart(c);
    text::numbers_read_back(n, u32::MAX as int);
    numerals_are_digits(n);
    no_other_is_found(d, ':', 0);
    assert(d.subrange(0, d.len() as int) =~= d);
    colons_are_found(e, 0, d.len() as int);
    assert(e.subrange(0, d.len() as int) =~= d);
    assert(e.subrange(d.len() as int + 1, e.len() as int) =~= apart);
    assert(e[d.len() as int] == ':');
    if e == "0"@ {
        assert(e.len() == 1);
    }
    if d == "0"@ {
        zero_is_nothing();
        text::numbers_read_back(0, u32::MAX as int);
        assert(text::decimal(0) =~= "0"@);
    }
}

proof fn zero_is_nothing()
    ensures
        text::decimal(0) =~= seq!['0'],
        "0"@ =~= seq!['0'],
{
    reveal_strlit("0");
    assert(('0' as int + 0int % 10) as char == '0');
}

proof fn numerals_are_digits(n: nat)
    ensures
        text::decimal(n).len() > 0,
        forall|k: int|
            0 <= k < text::decimal(n).len() ==> '0' <= (#[trigger] text::decimal(n)[k]) <= '9',
    decreases n,
{
    if n >= 10 {
        numerals_are_digits(n / 10);
    }
    let c = ('0' as int + n % 10) as char;
    assert(c as int == '0' as int + n % 10);
}

proof fn no_other_is_found(s: Seq<char>, c: char, i: int)
    requires
        0 <= i <= s.len(),
        !('0' <= c <= '9'),
        forall|k: int| 0 <= k < s.len() ==> '0' <= (#[trigger] s[k]) <= '9',
    ensures
        text::next_char(s, c, i) == s.len(),
    decreases s.len() - i,
{
    if i < s.len() {
        assert('0' <= s[i] <= '9');
        no_other_is_found(s, c, i + 1);
    }
}

proof fn colons_are_found(s: Seq<char>, i: int, e: int)
    requires
        0 <= i <= e < s.len(),
        s[e] == ':',
        forall|k: int| 0 <= k < e ==> '0' <= (#[trigger] s[k]) <= '9',
    ensures
        text::next_char(s, ':', i) == e,
    decreases e - i,
{
    if i < e {
        assert('0' <= s[i] <= '9');
        colons_are_found(s, i + 1, e);
    }
}

/// A colour is three numbers that commas part: red, green and blue.
pub proof fn colours_are_read(r: u8, g: u8, b: u8)
    ensures
        url::color_of(
            text::decimal(r as nat) + seq![','] + (text::decimal(g as nat) + seq![',']
                + text::decimal(b as nat)),
        ) == Some(seq![r, g, b]),
{
    let x = text::decimal(r as nat);
    let y = text::decimal(g as nat);
    let z = text::decimal(b as nat);
    let s = x + seq![','] + (y + seq![','] + z);
    let i = x.len() as int + 1;
    let j = (x.len() + 1 + y.len()) as int + 1;
    numerals_are_digits(r as nat);
    numerals_are_digits(g as nat);
    numerals_are_digits(b as nat);
    assert(s.subrange(0, i - 1) =~= x);
    assert(s.subrange(i, j - 1) =~= y);
    assert(s.subrange(j, s.len() as int) =~= z);
    numbers_are_read_up_to_commas(s, 0, i - 1, r);
    numbers_are_read_up_to_commas(s, i, j - 1, g);
    numbers_are_read_up_to_commas(s, j, s.len() as int, b);
    assert(seq![r] + (seq![g] + seq![b]) =~= seq![r, g, b]);
}

proof fn numbers_are_read_up_to_commas(s: Seq<char>, i: int, e: int, n: u8)
    requires
        0 <= i <= e <= s.len(),
        e < s.len() ==> s[e] == ',',
        s.subrange(i, e) == text::decimal(n as nat),
    ensures
        e == s.len() ==> url::numbers_from(s, i) == Some(seq![n]),
        e < s.len() ==> url::numbers_from(s, i) == (match url::numbers_from(s, e + 1) {
            Some(rest) => Some(seq![n] + rest),
            None => None,
        }),
{
    let d = text::decimal(n as nat);
    numerals_are_digits(n as nat);
    assert forall|k: int| i <= k < e implies (#[trigger] s[k]) != ',' by {
        assert(s[k] == d[k - i]);
    }
    commas_are_found(s, i, e);
    let none = Seq::<char>::empty();
    assert('0' <= d[0] <= '9');
    assert('0' <= d[d.len() - 1] <= '9');
    assert(none + d + none =~= d);
    only_spaces_are_trimmed(none, d, none);
    text::numbers_read_back(n as nat, 255);
}

proof fn commas_are_found(s: Seq<char>, i: int, e: int)
    requires
        0 <= i <= e <= s.len(),
        e < s.len() ==> s[e] == ',',
        forall|k: int| i <= k < e ==> (#[trigger] s[k]) != ',',
    ensures
        text::next_char(s, ',', i) == e,
    decreases e - i,
{
    if i < e {
        assert(s[i] != ',');
        commas_are_found(s, i + 1, e);
    }
}

// ---- Codes of keys -----------------------------------------------------------------------

/// Each key has its code, and no other code is a key.
pub proof fn keys_have_their_codes(code: Seq<char>)
    ensures
        controls::key_of(code) == Some(Key::W) <==> code == "KeyW"@,
        controls::key_of(code) == Some(Key::A) <==> code == "KeyA"@,
        controls::key_of(code) == Some(Key::S) <==> code == "KeyS"@,
        controls::key_of(code) == Some(Key::D) <==> code == "KeyD"@,
        controls::key_of(code) == Some(Key::Space) <==> code == "Space"@,
        controls::key_of(code) == Some(Key::ShiftLeft) <==> code == "ShiftLeft"@,
        controls::key_of(code) == Some(Key::Key0) <==> code == "Digit0"@,
        controls::key_of(code) == Some(Key::F) <==> code == "KeyF"@,
        controls::key_of(code) == Some(Key::E) <==> code == "KeyE"@,
        controls::key_of(code) == Some(Key::Q) <==> code == "KeyQ"@,
        controls::key_of(code) == Some(Key::KeyN) <==> code == "KeyN"@,
        controls::key_of(code) == Some(Key::KeyC) <==> code == "KeyC"@,
        controls::key_of(code) == Some(Key::KeyI) <==> code == "KeyI"@,
        controls::key_of(code) == Some(Key::KeyU) <==> code == "KeyU"@,
        controls::key_of(code) == Some(Key::BracketLeft) <==> code == "BracketLeft"@,
        controls::key_of(code) == Some(Key::BracketRight) <==> code == "BracketRight"@,
{
    codes_differ();
}

pub(crate) proof fn codes_differ()
    ensures
        "KeyW"@.len() == 4 && "KeyW"@[3] == 'W',
        "KeyA"@.len() == 4 && "KeyA"@[3] == 'A',
        "KeyS"@.len() == 4 && "KeyS"@[3] == 'S',
        "KeyD"@.len() == 4 && "KeyD"@[3] == 'D',
        "KeyF"@.len() == 4 && "KeyF"@[3] == 'F',
        "KeyE"@.len() == 4 && "KeyE"@[3] == 'E',
        "KeyQ"@.len() == 4 && "KeyQ"@[3] == 'Q',
        "KeyN"@.len() == 4 && "KeyN"@[3] == 'N',
        "KeyC"@.len() == 4 && "KeyC"@[3] == 'C',
        "KeyI"@.len() == 4 && "KeyI"@[3] == 'I',
        "KeyU"@.len() == 4 && "KeyU"@[3] == 'U',
        "Space"@.len() == 5,
        "Digit0"@.len() == 6,
        "ShiftLeft"@.len() == 9,
        "BracketLeft"@.len() == 11,
        "BracketRight"@.len() == 12,
{
    reveal_strlit("KeyW");
    reveal_strlit("KeyA");
    reveal_strlit("KeyS");
    reveal_strlit("KeyD");
    reveal_strlit("KeyF");
    reveal_strlit("KeyE");
    reveal_strlit("KeyQ");
    reveal_strlit("KeyN");
    reveal_strlit("KeyC");
    reveal_strlit("KeyI");
    reveal_strlit("KeyU");
    reveal_strlit("Space");
    reveal_strlit("Digit0");
    reveal_strlit("ShiftLeft");
    reveal_strlit("BracketLeft");
    reveal_strlit("BracketRight");
}

// ---- Signs -------------------------------------------------------------------------------

/// A minus stands before a digit, and one sign is enough.
pub proof fn signs_stand_before_digits(s: Seq<char>)
    requires
        s.len() == 0 || !('0' <= s[0] <= '9'),
    ensures
        text::signed_of(seq!['-'] + s) is None,
{
    let t = seq!['-'] + s;
    if s.len() > 0 {
        assert(t[1] == s[0]);
    }
}

// ---- Queries -----------------------------------------------------------------------------

/// The parts of a query are looked through from left to right, and the first number that
/// has the name counts.
pub proof fn queries_are_read_in_turn(q: Seq<char>, i: int, e: int, name: Seq<char>)
    requires
        0 <= i <= e <= q.len(),
        e < q.len() ==> q[e] == '&',
        forall|k: int| i <= k < e ==> (#[trigger] q[k]) != '&',
    ensures
        pages::given(q.subrange(i, e), name) is Some ==> pages::number_from(q, i, name)
            == pages::given(q.subrange(i, e), name),
        pages::given(q.subrange(i, e), name) is None && e < q.len() ==> pages::number_from(
            q,
            i,
            name,
        ) == pages::number_from(q, e + 1, name),
        pages::given(q.subrange(i, e), name) is None && e == q.len() ==> pages::number_from(
            q,
            i,
            name,
        ) is None,
{
    marks_are_found(q, '&', i, e);
}

proof fn marks_are_found(s: Seq<char>, c: char, i: int, e: int)
    requires
        0 <= i <= e <= s.len(),
        e < s.len() ==> s[e] == c,
        forall|k: int| i <= k < e ==> (#[trigger] s[k]) != c,
    ensures
        text::next_char(s, c, i) == e,
    decreases e - i,
{
    if i < e {
        assert(s[i] != c);
        marks_are_found(s, c, i + 1, e);
    }
}

proof fn numbers_are_given(name: Seq<char>, n: nat)
    requires
        n <= i32::MAX,
    ensures
        pages::given(name + text::decimal(n), name) == Some(n as int),
{
    let d = text::decimal(n);
    numerals_are_digits(n);
    text::numbers_read_back(n, i32::MAX as int);
    assert((name + d).take(name.len() as int) =~= name);
    assert((name + d).subrange(name.len() as int, (name + d).len() as int) =~= d);
    assert('0' <= d[0] <= '9');
}

proof fn one_number_is_given(name: Seq<char>, n: nat, other: Seq<char>)
    requires
        n <= i32::MAX,
        name.len() == 2,
        other.len() == 2,
        name[0] != '&',
        name[1] != '&',
    ensures
        pages::number_or(name + text::decimal(n), name, 0) == n,
        forall|or: int| #[trigger] pages::number_or(name + text::decimal(n), name, or) == n,
        other[0] != name[0] ==> forall|or: int| #[trigger]
            pages::number_or(name + text::decimal(n), other, or) == or,
{
    let d = text::decimal(n);
    let q = name + d;
    numerals_are_digits(n);
    numbers_are_given(name, n);
    assert forall|k: int| 0 <= k < q.len() implies (#[trigger] q[k]) != '&' by {
        if k >= 2 {
            assert(q[k] == d[k - 2]);
            assert('0' <= d[k - 2] <= '9');
        } else {
            assert(q[k] == name[k]);
        }
    }
    assert(q.subrange(0, q.len() as int) =~= q);
    queries_are_read_in_turn(q, 0, q.len() as int, name);
    queries_are_read_in_turn(q, 0, q.len() as int, other);
    if other[0] != name[0] && text::begins(q, other) {
        assert(q.take(2)[0] == other[0]);
        assert(q[0] == name[0]);
    }
}

/// A map that is asked for has the middle and the sides that the query gives, each under
/// its own name, and else the spawn and 128.
pub proof fn maps_are_what_the_query_asks(t: Seq<char>, n: nat)
    requires
        pages::path_of(t) == "/api/map"@,
        n <= i32::MAX,
    ensures
        pages::query_of(t) == "x="@ + text::decimal(n) ==> pages::answer_to(t) == (Page::Chart {
            x: n as i32,
            z: 8,
            w: 128,
            h: 128,
        }),
        pages::query_of(t) == "z="@ + text::decimal(n) ==> pages::answer_to(t) == (Page::Chart {
            x: 8,
            z: n as i32,
            w: 128,
            h: 128,
        }),
        pages::query_of(t) == "w="@ + text::decimal(n) ==> pages::answer_to(t) == (Page::Chart {
            x: 8,
            z: 8,
            w: n as i32,
            h: 128,
        }),
        pages::query_of(t) == "h="@ + text::decimal(n) ==> pages::answer_to(t) == (Page::Chart {
            x: 8,
            z: 8,
            w: 128,
            h: n as i32,
        }),
{
    reveal_strlit("/healthz");
    reveal_strlit("/api/status");
    reveal_strlit("/api/map");
    reveal_strlit("x=");
    reveal_strlit("z=");
    reveal_strlit("w=");
    reveal_strlit("h=");
    assert("/healthz"@[1] == 'h' && "/api/map"@[1] == 'a' && "/api/status"@.len() == 11
        && "/api/map"@.len() == 8);
    one_number_is_given("x="@, n, "z="@);
    one_number_is_given("x="@, n, "w="@);
    one_number_is_given("x="@, n, "h="@);
    one_number_is_given("z="@, n, "x="@);
    one_number_is_given("z="@, n, "w="@);
    one_number_is_given("z="@, n, "h="@);
    one_number_is_given("w="@, n, "x="@);
    one_number_is_given("w="@, n, "z="@);
    one_number_is_given("w="@, n, "h="@);
    one_number_is_given("h="@, n, "x="@);
    one_number_is_given("h="@, n, "z="@);
    one_number_is_given("h="@, n, "w="@);
}

} // verus!
