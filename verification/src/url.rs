//! Addresses and what they carry: the address of a server, the parameters of the
//! page, colours and blocks by name.
use vstd::prelude::*;

use crate::block::Block;
use crate::text;
use crate::text::{
    chars_of, find_char, lowercased, parse_number, push_all, same_chars, slice_of, starts_with, text_of, trim,
};

verus! {

// ---- The address of a server ---------------------------------------------------------

/// Whether a place of a text holds what parts a scheme from the rest.
pub open spec fn mark_at(s: Seq<char>, i: int) -> bool {
    0 <= i && i + 3 <= s.len() && s[i] == ':' && s[i + 1] == '/' && s[i + 2] == '/'
}

/// Whether a text holds what parts a scheme from the rest.
pub open spec fn has_mark(s: Seq<char>) -> bool {
    exists|i: int| mark_at(s, i)
}

/// Where the host ends: at the first slash, question mark or number sign.
pub open spec fn host_end(s: Seq<char>, i: int) -> int
    decreases s.len() - i,
{
    if i < 0 || i >= s.len() {
        s.len() as int
    } else if s[i] == '/' || s[i] == '?' || s[i] == '#' {
        i
    } else {
        host_end(s, i + 1)
    }
}

/// The scheme of a trimmed address and what follows it. Other schemes than those of
/// the WebSocket protocol are refused; without one, the page decides.
pub open spec fn split_scheme(s: Seq<char>, secure: bool) -> Option<(Seq<char>, Seq<char>)> {
    if text::begins(s, "ws://"@) {
        Some(("ws"@, s.subrange(5, s.len() as int)))
    } else if text::begins(s, "wss://"@) {
        Some(("wss"@, s.subrange(6, s.len() as int)))
    } else if has_mark(s) {
        None
    } else if secure {
        Some(("wss"@, s))
    } else {
        Some(("ws"@, s))
    }
}

/// The address of a server as it is written in full, `secure` being whether the page
/// came over a secure connection. A host alone stands for its game path.
pub open spec fn normalized(raw: Seq<char>, secure: bool) -> Option<Seq<char>> {
    let s = text::trimmed(raw);
    if s.len() == 0 {
        None
    } else {
        match split_scheme(s, secure) {
            None => None,
            Some((scheme, rest)) => {
                let cut = host_end(rest, 0);
                let host = rest.subrange(0, cut);
                let tail = rest.subrange(cut, rest.len() as int);
                if host.len() == 0 {
                    None
                } else if tail.len() == 0 || tail == "/"@ {
                    Some(scheme + "://"@ + host + "/ws"@)
                } else {
                    Some(scheme + "://"@ + host + tail)
                }
            },
        }
    }
}

fn find_mark(s: &[char]) -> (r: bool)
    ensures
        r == has_mark(s@),
{
    let n: usize = s.len();
    let mut i: usize = 0;
    while i < n
        invariant
            n == s@.len(),
            i <= n,
            forall|k: int| 0 <= k < i ==> !mark_at(s@, k),
        decreases n - i,
    {
        if n - i >= 3 && s[i] == ':' && s[i + 1] == '/' && s[i + 2] == '/' {
            assert(mark_at(s@, i as int));
            return true;
        }
        i = i + 1;
    }
    false
}

fn find_host_end(s: &[char]) -> (r: usize)
    ensures
        r == host_end(s@, 0),
        r <= s@.len(),
{
    let mut i: usize = 0;
    while i < s.len() && s[i] != '/' && s[i] != '?' && s[i] != '#'
        invariant
            i <= s@.len(),
            host_end(s@, 0) == host_end(s@, i as int),
        decreases s@.len() - i,
    {
        i = i + 1;
    }
    i
}

fn joined(a: &str, b: &[char], c: &[char]) -> (r: String)
    ensures
        r@ == a@ + "://"@ + b@ + c@,
{
    let mut r: String = a.to_owned();
    let mark = chars_of("://");
    push_all(&mut r, mark.as_slice());
    push_all(&mut r, b);
    push_all(&mut r, c);
    assert(r@ =~= a@ + "://"@ + b@ + c@);
    r
}

/// The address of a server as it is written in full.
pub fn normalize_ws_url(raw: &str, secure: bool) -> (r: Option<String>)
    ensures
        match r {
            Some(s) => normalized(raw@, secure) == Some(s@),
            None => normalized(raw@, secure) is None,
        },
{
    let s = trim(chars_of(raw).as_slice());
    if s.len() == 0 {
        return None;
    }
    let ws = chars_of("ws://");
    let wss = chars_of("wss://");
    proof {
        reveal_strlit("ws://");
        reveal_strlit("wss://");
        reveal_strlit("/");
    }
    let mut scheme = "ws";
    let mut from: usize = 0;
    if starts_with(s.as_slice(), ws.as_slice()) {
        from = 5;
    } else if starts_with(s.as_slice(), wss.as_slice()) {
        scheme = "wss";
        from = 6;
    } else if find_mark(s.as_slice()) {
        return None;
    } else if secure {
        scheme = "wss";
    }
    let rest = slice_of(s.as_slice(), from, s.len());
    assert(from == 0 ==> rest@ =~= s@);
    let cut: usize = find_host_end(rest.as_slice());
    let host = slice_of(rest.as_slice(), 0, cut);
    let tail = slice_of(rest.as_slice(), cut, rest.len());
    if host.len() == 0 {
        return None;
    }
    let slash = chars_of("/");
    if tail.len() == 0 || same_chars(tail.as_slice(), slash.as_slice()) {
        let end = chars_of("/ws");
        return Some(joined(scheme, host.as_slice(), end.as_slice()));
    }
    Some(joined(scheme, host.as_slice(), tail.as_slice()))
}

// ---- Loading the page again ----------------------------------------------------------

/// How often a page may be loaded again for being too old.
pub const MAX_RELOADS: u64 = 3;

/// How often a page was loaded again, by the note that it left: the number before the
/// first comma.
pub open spec fn reloads_noted(note: Option<Seq<char>>) -> int {
    match note {
        Some(s) => match text::number_of(s.subrange(0, text::next_char(s, ',', 0)), u64::MAX as int) {
            Ok(n) => n,
            Err(_) => 0,
        },
        None => 0,
    }
}

/// Whether the page may be loaded again, by the note that it left, and how often that
/// is then.
pub fn reload_budget(note: Option<&str>) -> (r: Option<u64>)
    ensures
        ({
            let n = reloads_noted(
                match note {
                    Some(s) => Some(s@),
                    None => None,
                },
            );
            match r {
                Some(m) => n < MAX_RELOADS && m == n + 1,
                None => n >= MAX_RELOADS,
            }
        }),
        r matches Some(m) ==> 1 <= m <= 3,
        note is None ==> r == Some(1u64),
{
    let n: u64 = match note {
        Some(s) => {
            let c = chars_of(s);
            let k: usize = find_char(c.as_slice(), ',', 0);
            let digits = slice_of(c.as_slice(), 0, k);
            match parse_number(digits.as_slice(), u64::MAX) {
                Ok(n) => n,
                Err(_) => 0,
            }
        },
        None => 0,
    };
    if n < MAX_RELOADS {
        Some(n + 1)
    } else {
        None
    }
}

/// The address that loads a page anew from everywhere: with one parameter more, and
/// those that it has.
pub open spec fn fresh_address(path: Seq<char>, search: Seq<char>, token: Seq<char>) -> Seq<char> {
    path + search + (if search.len() == 0 {
        "?"@
    } else {
        "&"@
    }) + "qwc_reload="@ + token
}

/// The address that loads a page anew from everywhere.
pub fn reload_url(path: &str, search: &str, token: &str) -> (r: String)
    ensures
        r@ == fresh_address(path@, search@, token@),
{
    let mut r: String = path.to_owned();
    let s = chars_of(search);
    push_all(&mut r, s.as_slice());
    let mark = chars_of(
        if s.len() == 0 {
            "?"
        } else {
            "&"
        },
    );
    push_all(&mut r, mark.as_slice());
    push_all(&mut r, chars_of("qwc_reload=").as_slice());
    push_all(&mut r, chars_of(token).as_slice());
    r
}

// ---- The parameters of the page ----------------------------------------------------

/// What the address of the page asks for.
#[derive(Clone, Debug)]
pub struct Params {
    pub seed: u64,
    pub verify: bool,
    pub walk: bool,
    pub tag_log: bool,
    /// NPCs: how many, and the text of how far apart.
    pub npcs: Option<(u32, String)>,
    pub server: Option<String>,
    pub debug: bool,
    pub touch_test: bool,
}

/// What parameters say.
#[verifier::ext_equal]
pub struct ParamsView {
    pub seed: u64,
    pub verify: bool,
    pub walk: bool,
    pub tag_log: bool,
    pub npcs: Option<(u32, Seq<char>)>,
    pub server: Option<Seq<char>>,
    pub debug: bool,
    pub touch_test: bool,
}

impl View for Params {
    type V = ParamsView;

    open spec fn view(&self) -> ParamsView {
        ParamsView {
            seed: self.seed,
            verify: self.verify,
            walk: self.walk,
            tag_log: self.tag_log,
            npcs: match self.npcs {
                Some((n, s)) => Some((n, s@)),
                None => None,
            },
            server: match self.server {
                Some(s) => Some(s@),
                None => None,
            },
            debug: self.debug,
            touch_test: self.touch_test,
        }
    }
}

/// What is asked for where nothing is.
pub open spec fn no_params() -> ParamsView {
    ParamsView {
        seed: 1337,
        verify: false,
        walk: false,
        tag_log: false,
        npcs: None,
        server: None,
        debug: false,
        touch_test: false,
    }
}

/// The value of a parameter of a name.
pub open spec fn value_of(part: Seq<char>, name: Seq<char>) -> Option<Seq<char>> {
    if text::begins(part, name) {
        Some(part.subrange(name.len() as int, part.len() as int))
    } else {
        None
    }
}

/// Whether a part of the address switches something on.
pub open spec fn switches(part: Seq<char>, name: Seq<char>) -> bool {
    value_of(part, name) matches Some(v) && v != "0"@
}

/// What one part of the address changes.
pub open spec fn with_part(p: ParamsView, part: Seq<char>) -> ParamsView {
    if value_of(part, "seed="@) is Some {
        let v = value_of(part, "seed="@)->Some_0;
        match text::number_of(v.subrange(0, text::next_char(v, '#', 0)), u64::MAX as int) {
            Ok(n) => ParamsView { seed: n as u64, ..p },
            Err(_) => p,
        }
    } else if switches(part, "verify="@) {
        ParamsView { verify: true, ..p }
    } else if switches(part, "walk="@) {
        ParamsView { walk: true, ..p }
    } else if switches(part, "taglog="@) {
        ParamsView { tag_log: true, ..p }
    } else if switches(part, "dbg="@) {
        ParamsView { debug: true, ..p }
    } else if value_of(part, "npcs="@) is Some {
        let v = value_of(part, "npcs="@)->Some_0;
        let k = text::next_char(v, ':', 0);
        if v.len() == 0 || v == "0"@ {
            p
        } else {
            match text::number_of(v.subrange(0, k), u32::MAX as int) {
                Ok(n) => ParamsView {
                    npcs: Some(
                        (
                            n as u32,
                            if k < v.len() {
                                v.subrange(k + 1, v.len() as int)
                            } else {
                                Seq::empty()
                            },
                        ),
                    ),
                    ..p
                },
                Err(_) => p,
            }
        }
    } else if value_of(part, "server="@) is Some {
        let v = value_of(part, "server="@)->Some_0;
        if v.len() == 0 {
            p
        } else {
            ParamsView { server: Some(v), ..p }
        }
    } else if switches(part, "touchtest="@) {
        ParamsView { touch_test: true, ..p }
    } else {
        p
    }
}

/// Where a part of the address ends: at the next question mark or ampersand.
pub open spec fn part_end(s: Seq<char>, i: int) -> int
    decreases s.len() - i,
{
    if i < 0 || i >= s.len() {
        s.len() as int
    } else if s[i] == '?' || s[i] == '&' {
        i
    } else {
        part_end(s, i + 1)
    }
}

proof fn part_end_bounds(s: Seq<char>, i: int)
    requires
        0 <= i <= s.len(),
    ensures
        i <= part_end(s, i) <= s.len(),
    decreases s.len() - i,
{
    if i < s.len() && s[i] != '?' && s[i] != '&' {
        part_end_bounds(s, i + 1);
    }
}

/// What the parts of an address from `i` on make of parameters, one after the other.
pub open spec fn params_from(s: Seq<char>, i: int, p: ParamsView) -> ParamsView
    decreases s.len() - i,
    via params_from_ends
{
    if i < 0 || i > s.len() {
        p
    } else {
        let e = part_end(s, i);
        let q = with_part(p, s.subrange(i, e));
        if e >= s.len() {
            q
        } else {
            params_from(s, e + 1, q)
        }
    }
}

#[via_fn]
proof fn params_from_ends(s: Seq<char>, i: int, p: ParamsView) {
    if 0 <= i <= s.len() {
        part_end_bounds(s, i);
    }
}

/// What the address of a page asks for, `search` being what follows its path.
pub open spec fn params_of(search: Seq<char>) -> ParamsView {
    params_from(search, 0, no_params())
}

fn value_after(part: &[char], name: &str) -> (r: Option<Vec<char>>)
    ensures
        match r {
            Some(v) => value_of(part@, name@) == Some(v@),
            None => value_of(part@, name@) is None,
        },
{
    let n = chars_of(name);
    if starts_with(part, n.as_slice()) {
        Some(slice_of(part, n.len(), part.len()))
    } else {
        None
    }
}

fn is_zero(v: &[char]) -> (r: bool)
    ensures
        r == (v@ == "0"@),
{
    let z = chars_of("0");
    same_chars(v, z.as_slice())
}

fn is_switch(part: &[char], name: &str) -> (r: bool)
    ensures
        r == switches(part@, name@),
{
    match value_after(part, name) {
        Some(v) => !is_zero(v.as_slice()),
        None => false,
    }
}

fn take_seed(p: &mut Params, v: &[char])
    ensures
        final(p)@ == (match text::number_of(
            v@.subrange(0, text::next_char(v@, '#', 0)),
            u64::MAX as int,
        ) {
            Ok(n) => ParamsView { seed: n as u64, ..old(p)@ },
            Err(_) => old(p)@,
        }),
{
    let k: usize = find_char(v, '#', 0);
    let digits = slice_of(v, 0, k);
    match parse_number(digits.as_slice(), u64::MAX) {
        Ok(n) => {
            p.seed = n;
        },
        Err(_) => {},
    }
}

fn take_npcs(p: &mut Params, v: &[char])
    ensures
        ({
            let k = text::next_char(v@, ':', 0);
            final(p)@ == (if v@.len() == 0 || v@ == "0"@ {
                old(p)@
            } else {
                match text::number_of(v@.subrange(0, k), u32::MAX as int) {
                    Ok(n) => ParamsView {
                        npcs: Some(
                            (
                                n as u32,
                                if k < v@.len() {
                                    v@.subrange(k + 1, v@.len() as int)
                                } else {
                                    Seq::empty()
                                },
                            ),
                        ),
                        ..old(p)@
                    },
                    Err(_) => old(p)@,
                }
            })
        }),
{
    if v.len() == 0 || is_zero(v) {
        return;
    }
    let k: usize = find_char(v, ':', 0);
    let digits = slice_of(v, 0, k);
    match parse_number(digits.as_slice(), u32::MAX as u64) {
        Ok(n) => {
            let spacing: String = if k < v.len() {
                text_of(slice_of(v, k + 1, v.len()).as_slice())
            } else {
                String::new()
            };
            p.npcs = Some((n as u32, spacing));
        },
        Err(_) => {},
    }
}

fn take_part(p: &mut Params, part: &[char])
    ensures
        final(p)@ == with_part(old(p)@, part@),
{
    match value_after(part, "seed=") {
        Some(v) => {
            take_seed(p, v.as_slice());
            return;
        },
        None => {},
    }
    if is_switch(part, "verify=") {
        p.verify = true;
        return;
    }
    if is_switch(part, "walk=") {
        p.walk = true;
        return;
    }
    if is_switch(part, "taglog=") {
        p.tag_log = true;
        return;
    }
    if is_switch(part, "dbg=") {
        p.debug = true;
        return;
    }
    match value_after(part, "npcs=") {
        Some(v) => {
            take_npcs(p, v.as_slice());
            return;
        },
        None => {},
    }
    match value_after(part, "server=") {
        Some(v) => {
            if v.len() > 0 {
                p.server = Some(text_of(v.as_slice()));
            }
            return;
        },
        None => {},
    }
    if is_switch(part, "touchtest=") {
        p.touch_test = true;
    }
}

fn find_part_end(s: &[char], i: usize) -> (r: usize)
    requires
        i <= s@.len(),
    ensures
        r == part_end(s@, i as int),
        i <= r <= s@.len(),
{
    let mut k: usize = i;
    while k < s.len() && s[k] != '?' && s[k] != '&'
        invariant
            i <= k <= s@.len(),
            part_end(s@, i as int) == part_end(s@, k as int),
        decreases s@.len() - k,
    {
        k = k + 1;
    }
    k
}

/// What the address of a page asks for, `search` being what follows its path.
pub fn params_from_url(search: &str) -> (p: Params)
    ensures
        p@ == params_of(search@),
{
    let s = chars_of(search);
    let n: usize = s.len();
    let mut p = Params {
        seed: 1337,
        verify: false,
        walk: false,
        tag_log: false,
        npcs: None,
        server: None,
        debug: false,
        touch_test: false,
    };
    let mut i: usize = 0;
    let mut more: bool = true;
    while more
        invariant
            n == s@.len(),
            s@ == search@,
            more ==> i <= n,
            more ==> params_from(s@, i as int, p@) == params_of(search@),
            !more ==> p@ == params_of(search@),
        decreases (if more {
            n - i + 1
        } else {
            0
        }),
    {
        let e: usize = find_part_end(s.as_slice(), i);
        let part = slice_of(s.as_slice(), i, e);
        take_part(&mut p, part.as_slice());
        if e >= n {
            more = false;
        } else {
            i = e + 1;
        }
    }
    p
}

// ---- Colours and blocks ----------------------------------------------------------------

/// The numbers between the commas of a text from `i` on, each trimmed and up to 255.
pub open spec fn numbers_from(s: Seq<char>, i: int) -> Option<Seq<u8>>
    decreases s.len() - i,
    via numbers_from_ends
{
    if i < 0 || i > s.len() {
        None
    } else {
        let e = text::next_char(s, ',', i);
        match text::number_of(text::trimmed(s.subrange(i, e)), 255) {
            Err(_) => None,
            Ok(n) => if e >= s.len() {
                Some(seq![n as u8])
            } else {
                match numbers_from(s, e + 1) {
                    Some(rest) => Some(seq![n as u8] + rest),
                    None => None,
                }
            },
        }
    }
}

#[via_fn]
proof fn numbers_from_ends(s: Seq<char>, i: int) {
    if 0 <= i <= s.len() {
        text::next_char_bounds(s, ',', i);
    }
}

/// A colour: three numbers up to 255 with commas between them.
pub open spec fn color_of(s: Seq<char>) -> Option<Seq<u8>> {
    match numbers_from(s, 0) {
        Some(v) => if v.len() == 3 {
            Some(v)
        } else {
            None
        },
        None => None,
    }
}

/// A colour: three numbers up to 255 with commas between them.
pub fn parse_color_triple(s: &str) -> (r: Option<[u8; 3]>)
    ensures
        match r {
            Some(c) => color_of(s@) == Some(c@),
            None => color_of(s@) is None,
        },
{
    let c = chars_of(s);
    match numbers(c.as_slice(), 0) {
        Some(v) => {
            if v.len() != 3 {
                return None;
            }
            let rgb: [u8; 3] = [v[0], v[1], v[2]];
            assert(rgb@ =~= v@);
            Some(rgb)
        },
        None => None,
    }
}

fn numbers(s: &[char], i: usize) -> (r: Option<Vec<u8>>)
    requires
        i <= s@.len(),
    ensures
        match r {
            Some(v) => numbers_from(s@, i as int) == Some(v@),
            None => numbers_from(s@, i as int) is None,
        },
    decreases s@.len() - i,
{
    let e: usize = find_char(s, ',', i);
    let part = trim(slice_of(s, i, e).as_slice());
    match parse_number(part.as_slice(), 255) {
        Err(_) => None,
        Ok(n) => {
            let mut v: Vec<u8> = Vec::new();
            v.push(n as u8);
            if e >= s.len() {
                assert(v@ =~= seq![n as u8]);
                return Some(v);
            }
            match numbers(s, e + 1) {
                Some(mut rest) => {
                    let ghost tail = rest@;
                    v.append(&mut rest);
                    assert(v@ =~= seq![n as u8] + tail);
                    Some(v)
                },
                None => None,
            }
        },
    }
}

/// Whether a block is the first one of a name, in lower case.
pub open spec fn is_named(name: Seq<char>, b: Block) -> bool {
    &&& text::lowercase(b.spec_name()) == name
    &&& forall|c: Block|
        (#[trigger] c.id()) < b.id() ==> text::lowercase(c.spec_name()) != name
}

/// The first block of a name in lower case.
pub fn block_named(lower: &str) -> (r: Option<Block>)
    ensures
        match r {
            Some(b) => is_named(lower@, b),
            None => forall|b: Block| text::lowercase((#[trigger] b.spec_name())) != lower@,
        },
{
    let mut k: u8 = 0;
    while k < 17
        invariant
            k <= 17,
            forall|b: Block|
                (#[trigger] b.id()) < k ==> text::lowercase(b.spec_name()) != lower@,
        decreases 17 - k,
    {
        let b = Block::from_u8(k);
        proof {
            crate::block::ids_and_blocks_correspond();
            assert(b.id() == k);
        }
        let name = lowercased(b.info().name);
        if text::same_text(&name, lower) {
            return Some(b);
        }
        assert forall|c: Block| (#[trigger] c.id()) < k + 1 implies text::lowercase(c.spec_name())
            != lower@ by {
            if c.id() == k {
                assert(Block::spec_from_u8(c.id()) == c);
            }
        }
        k = k + 1;
    }
    assert forall|b: Block| text::lowercase((#[trigger] b.spec_name())) != lower@ by {
        crate::block::ids_and_blocks_correspond();
        assert(b.id() < 17);
    }
    None
}

/// The block that a text names, in whatever case.
pub fn parse_block_name(s: &str) -> (r: Option<Block>)
    ensures
        match r {
            Some(b) => is_named(text::lowercase(text::trimmed(s@)), b),
            None => forall|b: Block|
                text::lowercase((#[trigger] b.spec_name())) != text::lowercase(text::trimmed(s@)),
        },
{
    let t = text_of(trim(chars_of(s).as_slice()).as_slice());
    let lower = lowercased(&t);
    block_named(&lower)
}

/// The block of a number, where it is an id.
pub fn parse_block_id(n: i64) -> (r: Option<Block>)
    ensures
        r == (if 0 <= n <= 16 {
            Some(Block::spec_from_u8(n as u8))
        } else {
            None
        }),
{
    if n >= 0 && n <= 16 {
        Some(Block::from_u8(n as u8))
    } else {
        None
    }
}

// ---- Laws --------------------------------------------------------------------------

/// Addresses written in full always have a scheme of the WebSocket protocol.
pub proof fn full_addresses_have_a_scheme(raw: Seq<char>, secure: bool)
    requires
        normalized(raw, secure) is Some,
    ensures
        text::begins(normalized(raw, secure)->Some_0, "ws://"@) || text::begins(
            normalized(raw, secure)->Some_0,
            "wss://"@,
        ),
{
    reveal_strlit("ws");
    reveal_strlit("wss");
    reveal_strlit("://");
    reveal_strlit("ws://");
    reveal_strlit("wss://");
    let r = normalized(raw, secure)->Some_0;
    let s = text::trimmed(raw);
    let (scheme, rest) = split_scheme(s, secure)->Some_0;
    assert("ws"@ + "://"@ =~= "ws://"@);
    assert("wss"@ + "://"@ =~= "wss://"@);
    if scheme == "ws"@ {
        assert(r.take(5) =~= "ws://"@);
    } else {
        assert(r.take(6) =~= "wss://"@);
    }
}

/// A secure page never asks for a connection that is not, unless the address says
/// so.
pub proof fn secure_pages_stay_secure(raw: Seq<char>)
    requires
        normalized(raw, true) is Some,
        !text::begins(text::trimmed(raw), "ws://"@),
    ensures
        text::begins(normalized(raw, true)->Some_0, "wss://"@),
{
    reveal_strlit("wss");
    reveal_strlit("://");
    reveal_strlit("wss://");
    let r = normalized(raw, true)->Some_0;
    assert("wss"@ + "://"@ =~= "wss://"@);
    assert(r.take(6) =~= "wss://"@);
}

} // verus!
