//! The first bytes of a connection: what they ask for, and who answers.
//!
//! One port takes everything. A request for the game's path that asks for the
//! WebSocket protocol opens a game session; all others are answered as pages.
use vstd::prelude::*;
use vstd::utf8;

use crate::text;
use crate::text::{chars_of, word_two};
use crate::wire::{copy_bytes, text_from_bytes};

verus! {

/// The path of game sessions.
pub const WS_PATH: &'static str = "/ws";

/// No more bytes than this are read in search of the end of a request's head.
pub const HEAD_MAX: usize = 8192;

/// `upgrade:`, in lower case.
pub const UPGRADE: [u8; 8] = [117, 112, 103, 114, 97, 100, 101, 58];

/// `websocket`, in lower case.
pub const WEBSOCKET: [u8; 9] = [119, 101, 98, 115, 111, 99, 107, 101, 116];

/// Who answers a request.
#[derive(Clone, Copy, PartialEq, Eq, Structural, Debug)]
pub enum Route {
    /// A game session.
    Session,
    /// The pages.
    Pages,
}

/// A byte with letters in lower case.
pub open spec fn lower(b: u8) -> u8 {
    if 65 <= b <= 90 {
        (b + 32) as u8
    } else {
        b
    }
}

fn lowered(b: u8) -> (r: u8)
    ensures
        r == lower(b),
{
    if b >= 65 && b <= 90 {
        b + 32
    } else {
        b
    }
}

/// Whether the bytes from `i` on are those of a word in lower case, whatever the
/// case of their letters.
pub open spec fn reads(s: Seq<u8>, i: int, word: Seq<u8>) -> bool {
    &&& 0 <= i
    &&& i + word.len() <= s.len()
    &&& forall|k: int| 0 <= k < word.len() ==> lower(#[trigger] s[i + k]) == word[k]
}

/// Whether a line after the first one begins at `i` and ends before `e`.
pub open spec fn is_line(s: Seq<u8>, i: int, e: int) -> bool {
    &&& 1 <= i <= e <= s.len()
    &&& s[i - 1] == 10
    &&& e == s.len() || s[e] == 10
    &&& forall|k: int| i <= k < e ==> #[trigger] s[k] != 10
}

/// Whether a line after the first one holds nothing, or only a carriage return. The
/// first such line ends the headers.
pub open spec fn is_blank_line(s: Seq<u8>, i: int, e: int) -> bool {
    is_line(s, i, e) && (e == i || (e == i + 1 && s[i] == 13))
}

/// Whether a header begins at `i` and ends before `e`: a line after the first one, with
/// no blank line before it.
pub open spec fn is_header_line(s: Seq<u8>, i: int, e: int) -> bool {
    &&& is_line(s, i, e)
    &&& forall|a: int, f: int| #[trigger] is_blank_line(s, a, f) ==> i <= f
}

/// Whether a line says that the WebSocket protocol is asked for.
pub open spec fn asks_upgrade(s: Seq<u8>, i: int, e: int) -> bool {
    &&& reads(s.take(e), i, UPGRADE@)
    &&& exists|j: int| i <= j && #[trigger] reads(s.take(e), j, WEBSOCKET@)
}

/// Whether a header of the request asks for the WebSocket protocol.
pub open spec fn upgrade_asked(s: Seq<u8>) -> bool {
    exists|i: int, e: int| #[trigger] is_header_line(s, i, e) && asks_upgrade(s, i, e)
}

/// Whether the bytes from `i` on, before `e`, are those of a word.
fn reads_at(s: &[u8], i: usize, e: usize, word: &[u8]) -> (r: bool)
    requires
        i <= e <= s@.len(),
    ensures
        r == reads(s@.take(e as int), i as int, word@),
{
    if e - i < word.len() {
        return false;
    }
    let mut k: usize = 0;
    while k < word.len()
        invariant
            i <= e <= s@.len(),
            k <= word@.len(),
            word@.len() <= e - i,
            forall|j: int| 0 <= j < k ==> lower(#[trigger] s@.take(e as int)[i + j]) == word@[j],
        decreases word@.len() - k,
    {
        if lowered(s[i + k]) != word[k] {
            assert(lower(s@.take(e as int)[i + k]) != word@[k as int]);
            return false;
        }
        k = k + 1;
    }
    true
}

fn line_asks_upgrade(s: &[u8], i: usize, e: usize) -> (r: bool)
    requires
        i <= e <= s@.len(),
    ensures
        r == asks_upgrade(s@, i as int, e as int),
{
    if !reads_at(s, i, e, UPGRADE.as_slice()) {
        return false;
    }
    let mut j: usize = i;
    while j < e
        invariant
            i <= j <= e <= s@.len(),
            forall|k: int| i <= k < j ==> !#[trigger] reads(s@.take(e as int), k, WEBSOCKET@),
            reads(s@.take(e as int), i as int, UPGRADE@),
        decreases e - j,
    {
        if reads_at(s, j, e, WEBSOCKET.as_slice()) {
            return true;
        }
        j = j + 1;
    }
    false
}

/// Whether a header of the request asks for the WebSocket protocol, in whatever
/// case.
pub fn has_websocket_upgrade(head: &[u8]) -> (r: bool)
    ensures
        r == upgrade_asked(head@),
{
    let n: usize = head.len();
    let mut i: usize = find_newline(head, 0);
    while i < n
        invariant
            n == head@.len(),
            i <= n,
            i < n ==> head@[i as int] == 10,
            forall|a: int, e: int|
                #[trigger] is_header_line(head@, a, e) && a <= i ==> !asks_upgrade(head@, a, e),
            forall|a: int, e: int| #[trigger] is_blank_line(head@, a, e) ==> i < e,
        decreases n - i,
    {
        let e: usize = find_newline(head, i + 1);
        assert(is_line(head@, i + 1, e as int));
        assert forall|a: int, f: int| #[trigger] is_line(head@, a, f) && i < a <= e implies a == i
            + 1 && f == e by {
            if a > i + 1 {
                assert(head@[a - 1] != 10);
            }
            if f < e {
                assert(head@[f] != 10);
            } else if f > e {
                assert(head@[e as int] == 10);
            }
        }
        if e == i + 1 || (e == i + 2 && head[i + 1] == 13) {
            assert(is_blank_line(head@, i + 1, e as int));
            assert forall|a: int, f: int| #[trigger]
                is_header_line(head@, a, f) implies !asks_upgrade(head@, a, f) by {
                assert(a <= e);
            }
            return false;
        }
        if line_asks_upgrade(head, i + 1, e) {
            assert(is_header_line(head@, i + 1, e as int));
            return true;
        }
        assert forall|a: int, f: int| #[trigger] is_blank_line(head@, a, f) implies e < f by {
            assert(is_line(head@, a, f));
            if a <= i {
                assert(i < f);
                assert(head@[i as int] == 10);
            }
        }
        i = e;
    }
    assert(!upgrade_asked(head@));
    false
}

/// The first line feed at or after `i`, or the end.
fn find_newline(s: &[u8], i: usize) -> (r: usize)
    requires
        i <= s@.len(),
    ensures
        i <= r <= s@.len(),
        r < s@.len() ==> s@[r as int] == 10,
        forall|k: int| i <= k < r ==> #[trigger] s@[k] != 10,
{
    let mut k: usize = i;
    while k < s.len() && s[k] != 10
        invariant
            i <= k <= s@.len(),
            forall|j: int| i <= j < k ==> #[trigger] s@[j] != 10,
        decreases s@.len() - k,
    {
        k = k + 1;
    }
    k
}

/// The first line of a request.
pub open spec fn first_line(s: Seq<u8>) -> Seq<u8>
    decreases s.len(),
{
    if s.len() == 0 || s[0] == 10 {
        Seq::empty()
    } else {
        seq![s[0]] + first_line(s.skip(1))
    }
}

proof fn first_line_ends(s: Seq<u8>, n: int)
    requires
        0 <= n <= s.len(),
        n < s.len() ==> s[n] == 10,
        forall|k: int| 0 <= k < n ==> #[trigger] s[k] != 10,
    ensures
        first_line(s) == s.take(n),
    decreases s.len(),
{
    if n == 0 {
        assert(s.take(0) =~= Seq::<u8>::empty());
    } else {
        let rest = s.skip(1);
        assert(s[0] != 10);
        assert forall|k: int| 0 <= k < n - 1 implies #[trigger] rest[k] != 10 by {
            assert(rest[k] == s[k + 1]);
        }
        first_line_ends(rest, n - 1);
        assert(seq![s[0]] + rest.take(n - 1) =~= s.take(n));
    }
}

/// What a request asks for: the second word of its first line.
pub open spec fn target_of(s: Seq<u8>) -> Option<Seq<char>> {
    if utf8::valid_utf8(first_line(s)) {
        text::second_word(utf8::decode_utf8(first_line(s)))
    } else {
        None
    }
}

/// What a request asks for.
pub fn request_target(head: &[u8]) -> (r: Option<String>)
    ensures
        match r {
            Some(t) => target_of(head@) == Some(t@),
            None => target_of(head@) is None,
        },
{
    let n: usize = find_newline(head, 0);
    proof {
        first_line_ends(head@, n as int);
        assert(head@.subrange(0, n as int) =~= head@.take(n as int));
    }
    match text_from_bytes(copy_bytes(head, 0, n)) {
        Some(line) => word_two(chars_of(&line).as_slice()),
        None => None,
    }
}

/// Whether a target is the path of game sessions, perhaps with parameters.
pub open spec fn is_session_path(t: Seq<char>) -> bool {
    text::begins(t, WS_PATH@) && (t.len() == WS_PATH@.len() || t[WS_PATH@.len() as int] == '?')
}

/// Whether a target is the path of game sessions.
pub fn wants_session(target: &str) -> (r: bool)
    ensures
        r == is_session_path(target@),
{
    let t = chars_of(target);
    let p = chars_of(WS_PATH);
    if !text::starts_with(t.as_slice(), p.as_slice()) {
        return false;
    }
    t.len() == p.len() || t[p.len()] == '?'
}

/// Who answers a request.
pub open spec fn route_of(head: Seq<u8>) -> Route {
    match target_of(head) {
        Some(t) => if is_session_path(t) && upgrade_asked(head) {
            Route::Session
        } else {
            Route::Pages
        },
        None => Route::Pages,
    }
}

/// Who answers a request: a game session, where it asks for the game's path and
/// the WebSocket protocol.
pub fn route(head: &[u8]) -> (r: Route)
    ensures
        r == route_of(head@),
{
    match request_target(head) {
        Some(t) => {
            if wants_session(&t) && has_websocket_upgrade(head) {
                Route::Session
            } else {
                Route::Pages
            }
        },
        None => Route::Pages,
    }
}

/// Whether a place holds the blank line after the headers.
pub open spec fn blank_line_at(s: Seq<u8>, i: int) -> bool {
    0 <= i && i + 4 <= s.len() && s[i] == 13 && s[i + 1] == 10 && s[i + 2] == 13 && s[i + 3] == 10
}

/// Whether enough of a request was read: the headers are complete, or there is too
/// much already.
pub fn head_complete(head: &[u8]) -> (r: bool)
    ensures
        r == (head@.len() >= HEAD_MAX || exists|i: int| #[trigger] blank_line_at(head@, i)),
        head@.len() >= 8192 ==> r,
        head@.len() < 8192 && head@.len() < 4 ==> !r,
{
    if head.len() >= HEAD_MAX {
        return true;
    }
    let n: usize = head.len();
    let mut i: usize = 0;
    while i + 4 <= n
        invariant
            n == head@.len(),
            n < HEAD_MAX,
            i <= n,
            forall|k: int| 0 <= k < i ==> !#[trigger] blank_line_at(head@, k),
        decreases n - i,
    {
        if head[i] == 13 && head[i + 1] == 10 && head[i + 2] == 13 && head[i + 3] == 10 {
            assert(blank_line_at(head@, i as int));
            return true;
        }
        i = i + 1;
    }
    false
}

/// Whether a client that speaks TLS is on the line: the record header of its first
/// bytes.
pub fn is_tls_client(lead: &[u8]) -> (r: bool)
    ensures
        r == (lead@.len() >= 2 && lead@[0] == 22 && lead@[1] == 3),
{
    lead.len() >= 2 && lead[0] == 22 && lead[1] == 3
}

// ---- Laws ------------------------------------------------------------------------

/// Only a request for the game's path opens a session, and only one that asks for
/// the WebSocket protocol.
pub proof fn sessions_are_asked_for(head: Seq<u8>)
    requires
        route_of(head) == Route::Session,
    ensures
        upgrade_asked(head),
        target_of(head) is Some,
        text::begins(target_of(head)->Some_0, WS_PATH@),
{
}

proof fn front_lines_are_the_same(head: Seq<u8>, body: Seq<u8>, e: int, i: int, f: int)
    requires
        0 <= e < head.len(),
        head[e] == 10,
        i <= e,
    ensures
        is_line(head + body, i, f) == is_line(head, i, f),
        is_line(head, i, f) ==> f <= e && asks_upgrade(head + body, i, f) == asks_upgrade(
            head,
            i,
            f,
        ),
{
    let s = head + body;
    assert(s[e] == 10);
    if is_line(s, i, f) {
        assert(f <= e);
        assert forall|k: int| i <= k < f implies #[trigger] head[k] != 10 by {
            assert(s[k] == head[k]);
        }
        assert(is_line(head, i, f));
    }
    if is_line(head, i, f) {
        assert(f <= e);
        assert forall|k: int| i <= k < f implies #[trigger] s[k] != 10 by {
            assert(s[k] == head[k]);
        }
        assert(is_line(s, i, f));
        assert(s.take(f) =~= head.take(f));
    }
}

/// What follows the blank line after the headers does not matter: a request asks for
/// the WebSocket protocol with any body, or with none.
pub proof fn bodies_are_not_read(head: Seq<u8>, body: Seq<u8>, a: int, e: int)
    requires
        is_blank_line(head, a, e),
        e < head.len(),
    ensures
        upgrade_asked(head + body) == upgrade_asked(head),
{
    let s = head + body;
    assert(is_blank_line(s, a, e));
    assert forall|i: int, f: int| i <= e implies #[trigger] is_line(s, i, f) == is_line(head, i, f)
        && (is_line(s, i, f) ==> f <= e && asks_upgrade(s, i, f) == asks_upgrade(head, i, f)) by {
        front_lines_are_the_same(head, body, e, i, f);
    }
    assert forall|i: int, f: int| f <= e implies #[trigger] is_blank_line(s, i, f)
        == is_blank_line(head, i, f) by {
        if i <= f {
            assert(is_line(s, i, f) == is_line(head, i, f));
            if 0 <= i && i < head.len() {
                assert(s[i] == head[i]);
            }
        }
    }
    if upgrade_asked(s) {
        let (i, f) = choose|i: int, f: int| #[trigger]
            is_header_line(s, i, f) && asks_upgrade(s, i, f);
        assert(is_line(s, i, f));
        assert forall|b: int, g: int| #[trigger] is_blank_line(head, b, g) implies i <= g by {
            if g <= e {
                assert(is_blank_line(s, b, g));
            }
        }
        assert(is_header_line(head, i, f));
    }
    if upgrade_asked(head) {
        let (i, f) = choose|i: int, f: int| #[trigger]
            is_header_line(head, i, f) && asks_upgrade(head, i, f);
        assert(is_line(s, i, f) == is_line(head, i, f));
        assert forall|b: int, g: int| #[trigger] is_blank_line(s, b, g) implies i <= g by {
            if g <= e {
                assert(is_blank_line(head, b, g));
            }
        }
        assert(is_header_line(s, i, f));
    }
}

/// The request line itself never counts as a header.
pub proof fn the_first_line_is_no_header(head: Seq<u8>)
    requires
        forall|k: int| 0 <= k < head.len() ==> #[trigger] head[k] != 10,
    ensures
        !upgrade_asked(head),
        route_of(head) == Route::Pages,
{
    assert forall|i: int, e: int| !#[trigger] is_header_line(head, i, e) by {
        if is_header_line(head, i, e) {
            assert(head[i - 1] == 10);
        }
    }
}

/// Letters are read without regard to case, and everything else as it is.
pub proof fn case_does_not_matter(a: u8, b: u8)
    ensures
        97 <= a <= 122 ==> lower(a) == a && lower((a - 32) as u8) == a,
        !(65 <= a <= 90) ==> lower(a) == a,
        lower(a) == lower(b) <==> a == b || (97 <= a <= 122 && b == a - 32) || (97 <= b <= 122 && a
            == b - 32),
{
}

/// The words are those of the protocol: the name of the header with its colon, and that
/// of the protocol to change to.
pub proof fn upgrades_are_asked_in_words(s: Seq<u8>, i: int, e: int)
    requires
        asks_upgrade(s, i, e),
        0 <= i <= e <= s.len(),
    ensures
        i + 8 <= e,
        lower(s[i]) == 117 && lower(s[i + 1]) == 112 && lower(s[i + 2]) == 103 && lower(s[i + 3])
            == 114 && lower(s[i + 4]) == 97 && lower(s[i + 5]) == 100 && lower(s[i + 6]) == 101
            && s[i + 7] == 58,
        exists|j: int|
            i <= j && j + 9 <= e && lower(#[trigger] s[j]) == 119 && lower(s[j + 1]) == 101
                && lower(s[j + 2]) == 98 && lower(s[j + 3]) == 115 && lower(s[j + 4]) == 111
                && lower(s[j + 5]) == 99 && lower(s[j + 6]) == 107 && lower(s[j + 7]) == 101
                && lower(s[j + 8]) == 116,
{
    let t = s.take(e);
    let u = UPGRADE@;
    let w = WEBSOCKET@;
    assert(u.len() == 8 && w.len() == 9);
    assert(lower(t[i + 0]) == u[0]);
    assert(lower(t[i + 1]) == u[1]);
    assert(lower(t[i + 2]) == u[2]);
    assert(lower(t[i + 3]) == u[3]);
    assert(lower(t[i + 4]) == u[4]);
    assert(lower(t[i + 5]) == u[5]);
    assert(lower(t[i + 6]) == u[6]);
    assert(lower(t[i + 7]) == u[7]);
    let j = choose|j: int| i <= j && #[trigger] reads(t, j, w);
    assert(lower(t[j + 0]) == w[0]);
    assert(lower(t[j + 1]) == w[1]);
    assert(lower(t[j + 2]) == w[2]);
    assert(lower(t[j + 3]) == w[3]);
    assert(lower(t[j + 4]) == w[4]);
    assert(lower(t[j + 5]) == w[5]);
    assert(lower(t[j + 6]) == w[6]);
    assert(lower(t[j + 7]) == w[7]);
    assert(lower(t[j + 8]) == w[8]);
    assert(s[j] == t[j + 0]);
}

/// A header line that asks for the protocol is heard: one behind a line feed, up to the
/// next one, with no blank line before it, that begins with the name of the header and
/// goes on with that of the protocol.
pub proof fn upgrades_are_heard(s: Seq<u8>, i: int, e: int, j: int)
    requires
        1 <= i <= j,
        j + 9 <= e <= s.len(),
        i + 8 <= e,
        s[i - 1] == 10,
        e == s.len() || s[e] == 10,
        forall|k: int| i <= k < e ==> #[trigger] s[k] != 10,
        forall|a: int, f: int| #[trigger] is_blank_line(s, a, f) ==> i <= f,
        lower(s[i]) == 117 && lower(s[i + 1]) == 112 && lower(s[i + 2]) == 103 && lower(s[i + 3])
            == 114 && lower(s[i + 4]) == 97 && lower(s[i + 5]) == 100 && lower(s[i + 6]) == 101
            && s[i + 7] == 58,
        lower(s[j]) == 119 && lower(s[j + 1]) == 101 && lower(s[j + 2]) == 98 && lower(s[j + 3])
            == 115 && lower(s[j + 4]) == 111 && lower(s[j + 5]) == 99 && lower(s[j + 6]) == 107
            && lower(s[j + 7]) == 101 && lower(s[j + 8]) == 116,
    ensures
        upgrade_asked(s),
{
    let t = s.take(e);
    let u = UPGRADE@;
    let w = WEBSOCKET@;
    assert(u =~= seq![117u8, 112, 103, 114, 97, 100, 101, 58]);
    assert(w =~= seq![119u8, 101, 98, 115, 111, 99, 107, 101, 116]);
    assert forall|k: int| 0 <= k < 8 implies lower(#[trigger] t[i + k]) == u[k] by {
        assert(t[i + k] == s[i + k]);
    }
    assert(reads(t, i, u));
    assert forall|k: int| 0 <= k < 9 implies lower(#[trigger] t[j + k]) == w[k] by {
        assert(t[j + k] == s[j + k]);
    }
    assert(reads(t, j, w));
    assert(is_header_line(s, i, e));
    assert(asks_upgrade(s, i, e));
}

/// A blank line is an empty one, or one with a carriage return alone.
pub proof fn blank_lines_are_empty(s: Seq<u8>, i: int, e: int)
    ensures
        is_blank_line(s, i, e) <==> 1 <= i <= e <= s.len() && s[i - 1] == 10 && (e == s.len() || s[e]
            == 10) && (e == i || (e == i + 1 && s[i] == 13)),
{
}

} // verus!
