//! The pages of a server's port: which one a request gets, and text in their data.
use vstd::prelude::*;

use crate::text;
use crate::text::{chars_of, find_char, parse_signed, push_all, same_chars, slice_of, starts_with};

verus! {

/// The middle of a map that names none, east and south.
pub const MAP_CENTRE: i32 = 8;

/// The side of a map that names none.
pub const MAP_SIDE: i32 = 128;

/// What a request is answered with.
#[derive(Clone, Copy, PartialEq, Eq, Structural, Debug)]
pub enum Page {
    /// That the server is well.
    Health,
    /// What the server is doing.
    Status,
    /// The map around a place.
    Chart { x: i32, z: i32, w: i32, h: i32 },
    /// That game sessions take the WebSocket protocol.
    UpgradeNeeded,
    /// The way to the dashboard.
    ToDashboard,
    Dashboard,
    /// The game itself.
    Game,
    Missing,
}

/// The path of a target: what stands before its parameters.
pub open spec fn path_of(t: Seq<char>) -> Seq<char> {
    t.subrange(0, text::next_char(t, '?', 0))
}

/// The parameters of a target.
pub open spec fn query_of(t: Seq<char>) -> Seq<char> {
    let k = text::next_char(t, '?', 0);
    if k < t.len() {
        t.subrange(k + 1, t.len() as int)
    } else {
        Seq::empty()
    }
}

/// The number that a part of the parameters gives to a name.
pub open spec fn given(part: Seq<char>, name: Seq<char>) -> Option<int> {
    if text::begins(part, name) {
        text::signed_of(part.subrange(name.len() as int, part.len() as int))
    } else {
        None
    }
}

/// The number that the first of the parts from `i` on gives to a name.
pub open spec fn number_from(q: Seq<char>, i: int, name: Seq<char>) -> Option<int>
    decreases q.len() - i,
    via number_from_ends
{
    if i < 0 || i > q.len() {
        None
    } else {
        let e = text::next_char(q, '&', i);
        if given(q.subrange(i, e), name) is Some {
            given(q.subrange(i, e), name)
        } else if e >= q.len() {
            None
        } else {
            number_from(q, e + 1, name)
        }
    }
}

#[via_fn]
proof fn number_from_ends(q: Seq<char>, i: int, name: Seq<char>) {
    if 0 <= i <= q.len() {
        text::next_char_bounds(q, '&', i);
    }
}

/// The number that parameters give to a name, or else `or`.
pub open spec fn number_or(q: Seq<char>, name: Seq<char>, or: int) -> int {
    match number_from(q, 0, name) {
        Some(n) => n,
        None => or,
    }
}

/// What a request for a target is answered with.
pub open spec fn answer_to(t: Seq<char>) -> Page {
    let p = path_of(t);
    let q = query_of(t);
    if p == "/healthz"@ {
        Page::Health
    } else if p == "/api/status"@ {
        Page::Status
    } else if p == "/api/map"@ {
        Page::Chart {
            x: number_or(q, "x="@, MAP_CENTRE as int) as i32,
            z: number_or(q, "z="@, MAP_CENTRE as int) as i32,
            w: number_or(q, "w="@, MAP_SIDE as int) as i32,
            h: number_or(q, "h="@, MAP_SIDE as int) as i32,
        }
    } else if p == "/ws"@ {
        Page::UpgradeNeeded
    } else if p == "/dashboard"@ {
        Page::ToDashboard
    } else if p == "/dashboard/"@ {
        Page::Dashboard
    } else if p == "/"@ {
        Page::Game
    } else {
        Page::Missing
    }
}

fn number_in(q: &[char], name: &str, or: i32) -> (n: i32)
    ensures
        n == number_or(q@, name@, or as int),
{
    let prefix = chars_of(name);
    let mut i: usize = 0;
    loop
        invariant
            i <= q@.len(),
            prefix@ == name@,
            number_from(q@, 0, name@) == number_from(q@, i as int, name@),
        decreases q@.len() - i,
    {
        let e: usize = find_char(q, '&', i);
        let part = slice_of(q, i, e);
        if starts_with(part.as_slice(), prefix.as_slice()) {
            let v = slice_of(part.as_slice(), prefix.len(), part.len());
            match parse_signed(v.as_slice()) {
                Some(n) => {
                    return n;
                },
                None => {},
            }
        }
        if e >= q.len() {
            return or;
        }
        i = e + 1;
    }
}

fn is_path(p: &[char], path: &str) -> (r: bool)
    ensures
        r == (p@ == path@),
{
    let c = chars_of(path);
    same_chars(p, c.as_slice())
}

/// What a request for a target is answered with.
pub fn page_of(target: &str) -> (r: Page)
    ensures
        r == answer_to(target@),
{
    let t = chars_of(target);
    let k: usize = find_char(t.as_slice(), '?', 0);
    let p = slice_of(t.as_slice(), 0, k);
    let q: Vec<char> = if k < t.len() {
        slice_of(t.as_slice(), k + 1, t.len())
    } else {
        Vec::new()
    };
    assert(q@ =~= query_of(target@));
    let p = p.as_slice();
    let q = q.as_slice();
    if is_path(p, "/healthz") {
        Page::Health
    } else if is_path(p, "/api/status") {
        Page::Status
    } else if is_path(p, "/api/map") {
        Page::Chart {
            x: number_in(q, "x=", MAP_CENTRE),
            z: number_in(q, "z=", MAP_CENTRE),
            w: number_in(q, "w=", MAP_SIDE),
            h: number_in(q, "h=", MAP_SIDE),
        }
    } else if is_path(p, "/ws") {
        Page::UpgradeNeeded
    } else if is_path(p, "/dashboard") {
        Page::ToDashboard
    } else if is_path(p, "/dashboard/") {
        Page::Dashboard
    } else if is_path(p, "/") {
        Page::Game
    } else {
        Page::Missing
    }
}

// ---- Text in data ----------------------------------------------------------------------

/// Whether a character is a control character.
pub open spec fn is_control(c: char) -> bool {
    '\u{0}' <= c <= '\u{1f}'
}

/// A hexadecimal digit.
pub open spec fn hex_digit(n: int) -> char {
    if n < 10 {
        ('0' as int + n) as char
    } else {
        ('a' as int + n - 10) as char
    }
}

fn hex(n: u8) -> (c: char)
    requires
        n < 16,
    ensures
        c == hex_digit(n as int),
{
    if n < 10 {
        (48 + n) as char
    } else {
        (87 + n) as char
    }
}

/// A character as it stands between quotation marks.
pub open spec fn quoted_char(c: char) -> Seq<char> {
    if c == '"' || c == '\\' {
        seq!['\\', c]
    } else if is_control(c) {
        seq!['\\', 'u', '0', '0', hex_digit(c as int / 16), hex_digit(c as int % 16)]
    } else {
        seq![c]
    }
}

/// A text as it stands between quotation marks.
pub open spec fn quoted_text(s: Seq<char>) -> Seq<char>
    decreases s.len(),
{
    if s.len() == 0 {
        Seq::empty()
    } else {
        quoted_text(s.drop_last()) + quoted_char(s.last())
    }
}

/// A text as it stands between quotation marks.
pub fn quoted(s: &str) -> (r: String)
    ensures
        r@ == quoted_text(s@),
{
    let v = chars_of(s);
    let mut r = String::new();
    let mut i: usize = 0;
    assert(v@.take(0) =~= Seq::<char>::empty());
    while i < v.len()
        invariant
            i <= v@.len(),
            r@ == quoted_text(v@.take(i as int)),
        decreases v@.len() - i,
    {
        let c: char = v[i];
        let ghost before = r@;
        if c == '"' || c == '\\' {
            r.push('\\');
            r.push(c);
        } else if '\u{0}' <= c && c <= '\u{1f}' {
            let n: u8 = (c as u32) as u8;
            push_all(&mut r, chars_of("\\u00").as_slice());
            proof {
                reveal_strlit("\\u00");
                assert("\\u00"@ =~= seq!['\\', 'u', '0', '0']);
            }
            r.push(hex(n / 16));
            r.push(hex(n % 16));
            assert(r@ =~= before + quoted_char(c));
        } else {
            r.push(c);
        }
        proof {
            assert(r@ =~= before + quoted_char(c));
            assert(v@.take(i as int + 1).drop_last() =~= v@.take(i as int));
        }
        i = i + 1;
    }
    assert(v@.take(i as int) =~= v@);
    r
}

// ---- Laws ----------------------------------------------------------------------------

proof fn hex_digits_are_plain(n: int)
    requires
        0 <= n < 16,
    ensures
        hex_digit(n) as int >= 48,
{
    if n < 10 {
        assert((('0' as int + n) as char) as int == 48 + n);
    } else {
        assert((('a' as int + n - 10) as char) as int == 87 + n);
    }
}

/// A quoted text holds no control characters, and each quotation mark in it stands
/// behind a backslash.
pub proof fn quoted_text_stays_inside(s: Seq<char>, i: int)
    requires
        0 <= i < quoted_text(s).len(),
    ensures
        !is_control(quoted_text(s)[i]),
        quoted_text(s)[i] == '"' ==> i > 0 && quoted_text(s)[i - 1] == '\\',
    decreases s.len(),
{
    let head = quoted_text(s.drop_last());
    let c = s.last();
    if i < head.len() {
        quoted_text_stays_inside(s.drop_last(), i);
    } else {
        let k = i - head.len();
        assert(quoted_text(s)[i] == quoted_char(c)[k]);
        if is_control(c) {
            hex_digits_are_plain(c as int / 16);
            hex_digits_are_plain(c as int % 16);
        }
        if c == '"' || c == '\\' {
            assert(k == 1 ==> quoted_text(s)[i - 1] == quoted_char(c)[0]);
        }
    }
}

/// Parameters never change which page is shown, but for the map's.
pub proof fn parameters_keep_the_page(t: Seq<char>, u: Seq<char>)
    requires
        path_of(t) == path_of(u),
        path_of(t) != "/api/map"@,
    ensures
        answer_to(t) == answer_to(u),
{
}

} // verus!
