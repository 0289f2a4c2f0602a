use qwencraft::block::{Block, PLACEABLE};
use qwencraft::coords::{region_index, BlockPos, ChunkPos, CHUNK, REGION_BLOCKS, REGION_MARGIN};
use qwencraft::input::Action;
use qwencraft::pages::{page_of, quoted, Page, MAP_CENTRE, MAP_SIDE};
use qwencraft::protocol::{self, ClientMsg};
use qwencraft::session::{action_for_wire, request_of, Request};
use qwencraft::stream::{missing_from_view, Streamer, CHUNKS_PER_TICK};
use qwencraft::world::{World, WorldUpdate};

#[test]
fn every_path_has_its_page() {
    assert_eq!(page_of("/healthz"), Page::Health);
    assert_eq!(page_of("/api/status"), Page::Status);
    assert_eq!(page_of("/ws"), Page::UpgradeNeeded);
    assert_eq!(page_of("/dashboard"), Page::ToDashboard);
    assert_eq!(page_of("/dashboard/"), Page::Dashboard);
    assert_eq!(page_of("/"), Page::Game);
    assert_eq!(page_of("/?seed=7"), Page::Game);
    assert_eq!(page_of("/nope"), Page::Missing);
    assert_eq!(page_of(""), Page::Missing);
}

#[test]
fn maps_are_asked_for_by_parameters() {
    assert_eq!(
        page_of("/api/map?x=8&z=-20&w=64&h=4096"),
        Page::Chart { x: 8, z: -20, w: 64, h: 4096 }
    );
    let plain = Page::Chart { x: MAP_CENTRE, z: MAP_CENTRE, w: MAP_SIDE, h: MAP_SIDE };
    assert_eq!(page_of("/api/map"), plain);
    assert_eq!(page_of("/api/map?x=ten&y=3&w=99999999999&h="), plain);
    assert_eq!(
        page_of("/api/map?x=&x=-2147483648&x=5&z=+4"),
        Page::Chart { x: i32::MIN, z: 4, w: MAP_SIDE, h: MAP_SIDE }
    );
}

#[test]
fn text_stays_between_its_quotation_marks() {
    assert_eq!(quoted("plain"), "plain");
    assert_eq!(quoted("a\"b\\c"), "a\\\"b\\\\c");
    assert_eq!(quoted("\n\u{1f}"), "\\u000a\\u001f");
}

#[test]
fn actions_cross_the_wire() {
    let place = Action::Place { yaw: 1, pitch: 2, block: 16 };
    assert_eq!(action_for_wire(place), protocol::Action::Place { yaw: 1, pitch: 2 });
    assert_eq!(
        request_of(ClientMsg::Action(action_for_wire(place))),
        Request::Action(Action::Place { yaw: 1, pitch: 2, block: PLACEABLE[0].as_u8() })
    );
    assert_eq!(
        request_of(ClientMsg::Action(action_for_wire(Action::FlySlower))),
        Request::Action(Action::FlySlower)
    );
    assert_eq!(
        request_of(ClientMsg::Input { keys: 3, dx: 4, dy: 5 }),
        Request::Input { keys: 3, dx: 4, dy: 5, analog_x: 0, analog_y: 0 }
    );
}

#[test]
fn a_tick_sends_the_nearest_chunks_as_they_are() {
    let mut w = World::new(1337);
    let at = BlockPos::new(3, 40, 3);
    w.set_block(at, Block::Brick);
    let mut s = Streamer::new();
    let sent = s.tick(&mut w, (0, 2, 0));
    assert_eq!(sent.len(), CHUNKS_PER_TICK);
    assert_eq!(s.sent_count(), CHUNKS_PER_TICK);
    let WorldUpdate::Chunk { pos, data } = &sent[0];
    assert_eq!(*pos, ChunkPos::new(0, 2, 0));
    assert_eq!(data.len(), REGION_BLOCKS);
    let i = region_index(BlockPos::new(
        at.x + REGION_MARGIN,
        at.y - 2 * CHUNK + REGION_MARGIN,
        at.z + REGION_MARGIN,
    ));
    assert_eq!(data[i], Block::Brick.as_u8());
    let mut n = sent.len();
    loop {
        let more = s.tick(&mut w, (0, 2, 0)).len();
        n += more;
        if more < CHUNKS_PER_TICK {
            break;
        }
        if n > 64 {
            return;
        }
    }
    assert_eq!(n, s.sent_count());
}

#[test]
fn what_is_missing_from_view_is_listed() {
    let all = missing_from_view((5, 1, -5), &[]);
    assert_eq!(all.len(), 15 * 15 * 4);
    let have = [all[0], all[7], ChunkPos::new(100, 0, 0)];
    let lost = missing_from_view((5, 1, -5), &have);
    assert_eq!(lost.len(), 15 * 15 * 4 - 2);
    assert!(!lost.contains(&all[7]));
}
