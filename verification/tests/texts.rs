use qwencraft::block::Block;
use qwencraft::http::{
    has_websocket_upgrade, head_complete, is_tls_client, request_target, route, wants_session,
    Route, HEAD_MAX,
};
use qwencraft::opts::{
    next_value, parse_opt, tls_is_paired, Flag, OptError, OptStep, ServerOptions,
};
use qwencraft::text::{chars_of, parse_number, push_number, text_of, trim, word_two, NumberError};
use qwencraft::url::{
    block_named, normalize_ws_url, params_from_url, parse_block_id, parse_block_name,
    parse_color_triple,
};

fn number(s: &str, max: u64) -> Result<u64, NumberError> {
    parse_number(&chars_of(s), max)
}

#[test]
fn numbers_are_read() {
    assert_eq!(number("0", 255), Ok(0));
    assert_eq!(number("255", 255), Ok(255));
    assert_eq!(number("+17", 255), Ok(17));
    assert_eq!(number("007", 255), Ok(7));
    assert_eq!(number("18446744073709551615", u64::MAX), Ok(u64::MAX));
    assert_eq!(number("", 255), Err(NumberError::Empty));
    assert_eq!(number("+", 255), Err(NumberError::InvalidDigit));
    assert_eq!(number("-1", 255), Err(NumberError::InvalidDigit));
    assert_eq!(number("1x", 255), Err(NumberError::InvalidDigit));
    assert_eq!(number("256", 255), Err(NumberError::TooLarge));
    assert_eq!(number("18446744073709551616", u64::MAX), Err(NumberError::TooLarge));
}

#[test]
fn numbers_agree_with_the_standard_library() {
    for s in ["0", "1", "65535", "65536", "+5", "", "+", "a", "12a", " 1", "99999999999999999999999"] {
        assert_eq!(number(s, u16::MAX as u64).ok().map(|n| n as u16), s.parse::<u16>().ok(), "{s:?}");
        assert_eq!(number(s, u64::MAX).ok(), s.parse::<u64>().ok(), "{s:?}");
    }
}

#[test]
fn written_numbers_read_back() {
    for n in [0u64, 9, 10, 99, 100, 1337, u64::MAX] {
        let mut s = String::new();
        push_number(&mut s, n);
        assert_eq!(s, format!("{n}"));
        assert_eq!(number(&s, u64::MAX), Ok(n));
    }
}

#[test]
fn text_is_trimmed_as_the_standard_library_does() {
    for s in ["", " ", "a", "  a b ", "\t\r\n x \u{a0}\u{3000}", "\u{200b}y"] {
        assert_eq!(text_of(&trim(&chars_of(s))), s.trim(), "{s:?}");
    }
}

#[test]
fn second_words_are_found() {
    for s in ["GET /ws HTTP/1.1", "GET", "", "  a   b  c", "a\tb"] {
        assert_eq!(
            word_two(&chars_of(s)),
            s.split_whitespace().nth(1).map(|w| w.to_string()),
            "{s:?}"
        );
    }
}

const UPGRADE: &[u8] = b"GET /ws HTTP/1.1\r\nHost: x\r\nUpgrade: WebSocket\r\n\r\n";

#[test]
fn sessions_need_the_path_and_the_header() {
    assert_eq!(route(UPGRADE), Route::Session);
    assert_eq!(route(b"GET /ws?x=1 HTTP/1.1\r\nupgrade:websocket\r\n\r\n"), Route::Session);
    assert_eq!(route(b"GET /ws HTTP/1.1\r\nHost: x\r\n\r\n"), Route::Pages);
    assert_eq!(route(b"GET /wsx HTTP/1.1\r\nUpgrade: websocket\r\n\r\n"), Route::Pages);
    assert_eq!(route(b"GET / HTTP/1.1\r\nUpgrade: websocket\r\n\r\n"), Route::Pages);
    assert_eq!(route(b""), Route::Pages);
    assert!(wants_session("/ws"));
    assert!(wants_session("/ws?token=1"));
    assert!(!wants_session("/ws/"));
    assert!(!wants_session("/w"));
}

#[test]
fn the_first_line_asks_for_nothing() {
    assert!(!has_websocket_upgrade(b"Upgrade: websocket"));
    assert!(has_websocket_upgrade(b"GET / HTTP/1.1\nUPGRADE: h2c, WebSocket"));
    assert!(!has_websocket_upgrade(b"GET / HTTP/1.1\r\nX-Upgrade: websocket\r\n"));
    assert!(has_websocket_upgrade(b"GET / HTTP/1.1\r\nHost: x\r\nupgrade: websocket\r\n\r\nbody"));
    assert!(!has_websocket_upgrade(b"GET / HTTP/1.1\r\nUpgrade: h2c\r\nX: websocket\r\n"));
}

#[test]
fn the_body_asks_for_nothing() {
    let post = b"POST /ws HTTP/1.1\r\nHost: x\r\n\r\nupgrade: websocket\r\n";
    assert!(!has_websocket_upgrade(post));
    assert_eq!(route(post), Route::Pages);
    let bare = b"GET /ws HTTP/1.1\nHost: x\n\nUpgrade: websocket\n";
    assert!(!has_websocket_upgrade(bare));
    assert_eq!(route(bare), Route::Pages);
    let head = b"GET /ws HTTP/1.1\r\nUpgrade: websocket\r\n\r\nupgrade: h2c\r\n";
    assert!(has_websocket_upgrade(head));
    assert_eq!(route(head), Route::Session);
    assert!(has_websocket_upgrade(b"GET /ws HTTP/1.1\r\n \r\nUpgrade: websocket\r\n"));
}

#[test]
fn targets_are_read() {
    assert_eq!(request_target(UPGRADE), Some("/ws".to_string()));
    assert_eq!(request_target(b"GET"), None);
    assert_eq!(request_target(b"\xff\xfe /x HTTP/1.1\r\n"), None);
    assert_eq!(request_target("GET /\u{e9} HTTP/1.1\r\n".as_bytes()), Some("/\u{e9}".to_string()));
}

#[test]
fn heads_end_with_a_blank_line_or_are_too_long() {
    assert!(head_complete(UPGRADE));
    assert!(!head_complete(&UPGRADE[..UPGRADE.len() - 1]));
    assert!(!head_complete(&vec![b'a'; HEAD_MAX - 1]));
    assert!(head_complete(&vec![b'a'; HEAD_MAX]));
}

#[test]
fn tls_clients_are_known_by_two_bytes() {
    assert!(is_tls_client(&[0x16, 0x03]));
    assert!(is_tls_client(&[0x16, 0x03, 0x01]));
    assert!(!is_tls_client(&[0x16]));
    assert!(!is_tls_client(b"GE"));
}

fn args(a: &[&str]) -> Vec<String> {
    a.iter().map(|s| s.to_string()).collect()
}

fn parse(a: &[&str]) -> Result<ServerOptions, OptError> {
    let a = args(a);
    let mut o = ServerOptions::default();
    let mut i = 0;
    while i < a.len() {
        parse_opt(&a, &mut i, &mut o)?;
    }
    Ok(o)
}

#[test]
fn options_have_defaults() {
    let o = parse(&[]).unwrap();
    assert_eq!((o.seed, o.port, o.bind.as_str()), (1337, 9000, "0.0.0.0"));
    assert_eq!((o.cert, o.key, o.debug, o.data_dir.as_str()), (None, None, false, "data"));
}

#[test]
fn options_are_taken() {
    let o = parse(&["--seed", "42", "--port", "0", "--bind", "::1", "--cert", "c", "--key", "k"]).unwrap();
    assert_eq!((o.seed, o.port, o.bind.as_str()), (42, 0, "::1"));
    assert_eq!(o.cert.as_deref(), Some("c"));
    assert_eq!(o.key.as_deref(), Some("k"));
    assert!(tls_is_paired(&o));
    assert!(!tls_is_paired(&parse(&["--cert", "c"]).unwrap()));
    assert!(!tls_is_paired(&parse(&["--key", "k"]).unwrap()));
    assert_eq!(parse(&["--seed", "1", "--seed", "2"]).unwrap().seed, 2);
}

#[test]
fn bad_options_are_refused() {
    assert_eq!(parse(&["--seed"]).unwrap_err(), OptError::MissingValue { flag: Flag::Seed });
    assert_eq!(
        parse(&["--port", "65536"]).unwrap_err(),
        OptError::BadNumber { flag: Flag::Port, why: NumberError::TooLarge }
    );
    assert_eq!(
        parse(&["--seed", "x"]).unwrap_err(),
        OptError::BadNumber { flag: Flag::Seed, why: NumberError::InvalidDigit }
    );
    assert_eq!(
        parse(&["--seed", ""]).unwrap_err(),
        OptError::BadNumber { flag: Flag::Seed, why: NumberError::Empty }
    );
    assert_eq!(parse(&["--seed", "1", "--x"]).unwrap_err(), OptError::Unknown { index: 2 });
}

#[test]
fn help_and_bind_are_reported() {
    let a = args(&["--bind", "nonsense", "-h"]);
    let mut o = ServerOptions::default();
    let mut i = 0;
    assert_eq!(parse_opt(&a, &mut i, &mut o), Ok(OptStep::Bind));
    assert_eq!(o.bind, "nonsense");
    assert_eq!(parse_opt(&a, &mut i, &mut o), Ok(OptStep::Help));
    assert_eq!(i, 3);
}

#[test]
fn options_name_themselves() {
    for f in [Flag::Seed, Flag::Port, Flag::Bind, Flag::Cert, Flag::Key] {
        let a = args(&[f.name()]);
        let mut i = 0;
        assert_eq!(
            parse_opt(&a, &mut i, &mut ServerOptions::default()),
            Err(OptError::MissingValue { flag: f })
        );
    }
}

#[test]
fn values_are_taken_one_by_one() {
    let a = args(&["a", "b"]);
    let mut i = 1;
    assert_eq!(next_value(&a, &mut i, Flag::Key), Ok("b".to_string()));
    assert_eq!(next_value(&a, &mut i, Flag::Key), Err(OptError::MissingValue { flag: Flag::Key }));
    assert_eq!(i, 2);
}

fn full(raw: &str, secure: bool) -> Option<String> {
    normalize_ws_url(raw, secure)
}

#[test]
fn addresses_are_written_in_full() {
    assert_eq!(full("example.org", false).as_deref(), Some("ws://example.org/ws"));
    assert_eq!(full("example.org:9000/", true).as_deref(), Some("wss://example.org:9000/ws"));
    assert_eq!(full("  ws://h:1/game ", true).as_deref(), Some("ws://h:1/game"));
    assert_eq!(full("wss://h", false).as_deref(), Some("wss://h/ws"));
    assert_eq!(full("h?x=1", false).as_deref(), Some("ws://h?x=1"));
    assert_eq!(full("", false), None);
    assert_eq!(full("   ", true), None);
    assert_eq!(full("http://h", false), None);
    assert_eq!(full("ws:///ws", false), None);
    assert_eq!(full("/ws", false), None);
}

#[test]
fn pages_ask_for_things() {
    let p = params_from_url("?seed=42#top&verify=1&walk=0&taglog=1&dbg=1&npcs=64:8.5&server=h:1&touchtest=1");
    assert_eq!(p.seed, 42);
    assert!(p.verify && !p.walk && p.tag_log && p.debug && p.touch_test);
    assert_eq!(p.npcs, Some((64, "8.5".to_string())));
    assert_eq!(p.server.as_deref(), Some("h:1"));
}

#[test]
fn pages_that_ask_for_nothing_get_the_defaults() {
    for s in ["", "?", "?seed=", "?seed=x", "?npcs=0", "?npcs=", "?npcs=x:1", "?server=", "?x=1"] {
        let p = params_from_url(s);
        assert_eq!(p.seed, 1337, "{s}");
        assert!(!p.verify && !p.walk && !p.tag_log && !p.debug && !p.touch_test);
        assert_eq!((p.npcs, p.server), (None, None));
    }
    assert_eq!(params_from_url("?seed=1&seed=2").seed, 2);
    assert_eq!(params_from_url("?npcs=5").npcs, Some((5, String::new())));
    assert!(params_from_url("?verify=").verify);
}

#[test]
fn colours_are_three_bytes() {
    assert_eq!(parse_color_triple("1, 2 ,255"), Some([1, 2, 255]));
    assert_eq!(parse_color_triple("1,2"), None);
    assert_eq!(parse_color_triple("1,2,3,4"), None);
    assert_eq!(parse_color_triple("1,2,256"), None);
    assert_eq!(parse_color_triple(""), None);
}

#[test]
fn blocks_are_named_in_whatever_case() {
    assert_eq!(parse_block_name(" STONE "), Some(Block::Stone));
    assert_eq!(parse_block_name("air"), Some(Block::Air));
    assert_eq!(parse_block_name("nothing"), None);
    assert_eq!(block_named("STONE"), None);
    assert_eq!(block_named("stone"), Some(Block::Stone));
    assert_eq!(parse_block_id(16), Some(Block::Obsidian));
    assert_eq!(parse_block_id(17), None);
    assert_eq!(parse_block_id(-1), None);
}
