use qwencraft::coords::{
    chunk_index, floor_chunk, pack, region_index, BlockPos, ChunkPos, WORLD_HEIGHT,
};
use qwencraft::input::{Input, Key, KeySet};
use qwencraft::picture::{base64, checked_scene, grid_report, lines_of, scene, Streamed, PICTURE_BYTES};
use qwencraft::uniforms::{uniform_bytes, UNIFORM_SIZE};
use qwencraft::wire::{
    copy_bytes, frame_header, frame_len, read2, read4, read8, to_signed, to_unsigned, Dec, Enc,
};

#[test]
fn uniform_layout() {
    let bits = |v: [f32; 3]| [v[0].to_bits(), v[1].to_bits(), v[2].to_bits()];
    let vp = [0.5f32.to_bits(); 16];
    let b = uniform_bytes(
        vp,
        bits([1.0, 2.0, 3.0]),
        70.0f32.to_bits(),
        108.0f32.to_bits(),
        bits([0.5, 0.6, 0.7]),
    );
    assert_eq!(b.len(), 112);
    assert_eq!(b.len() as u64, UNIFORM_SIZE);
    assert_eq!(&b[64..68], &1.0f32.to_le_bytes());
    assert_eq!(&b[68..72], &2.0f32.to_le_bytes());
    assert_eq!(&b[72..76], &3.0f32.to_le_bytes());
    assert_eq!(&b[76..80], &0.0f32.to_le_bytes());
    assert_eq!(&b[80..84], &70.0f32.to_le_bytes());
    assert_eq!(&b[84..88], &108.0f32.to_le_bytes());
    assert!(b[88..96].iter().all(|&x| x == 0));
    assert_eq!(&b[96..100], &0.5f32.to_le_bytes());
    assert_eq!(&b[100..104], &0.6f32.to_le_bytes());
    assert_eq!(&b[104..108], &0.7f32.to_le_bytes());
    assert_eq!(&b[108..112], &0.0f32.to_le_bytes());
}

#[test]
fn numbers_have_the_lowest_byte_first() {
    let mut e = Enc::new();
    e.u8(1);
    e.u16(0x0203);
    e.u32(0x04050607);
    e.u64(0x08090a0b0c0d0e0f);
    e.i32(-2);
    e.float_bits(1.0f32.to_bits());
    e.triple(1, -1, 2);
    e.bytes(&[9, 8]);
    e.text(&"\u{e9}".to_string());
    let mut want = vec![1u8];
    want.extend_from_slice(&0x0203u16.to_le_bytes());
    want.extend_from_slice(&0x04050607u32.to_le_bytes());
    want.extend_from_slice(&0x08090a0b0c0d0e0fu64.to_le_bytes());
    want.extend_from_slice(&(-2i32).to_le_bytes());
    want.extend_from_slice(&1.0f32.to_le_bytes());
    for v in [1i32, -1, 2] {
        want.extend_from_slice(&v.to_le_bytes());
    }
    want.extend_from_slice(&[9, 8]);
    want.extend_from_slice(&2u16.to_le_bytes());
    want.extend_from_slice("\u{e9}".as_bytes());
    assert_eq!(e.into_bytes(), want);
    assert_eq!(read2(&want, 1), 0x0203);
    assert_eq!(read4(&want, 3), 0x04050607);
    assert_eq!(read8(&want, 7), 0x08090a0b0c0d0e0f);
    assert_eq!(copy_bytes(&want, 1, 2), vec![3, 2]);
}

#[test]
fn numbers_read_back_until_the_bytes_end() {
    let mut e = Enc::new();
    e.u8(7);
    e.u16(300);
    e.u32(70000);
    e.u64(1 << 40);
    e.i32(i32::MIN);
    e.float_bits(5);
    e.bytes(&[1, 2, 3]);
    let b = e.into_bytes();
    let mut d = Dec::new(&b);
    assert_eq!(d.u8(), Some(7));
    assert_eq!(d.u16(), Some(300));
    assert_eq!(d.u32(), Some(70000));
    assert_eq!(d.u64(), Some(1 << 40));
    assert_eq!(d.i32(), Some(i32::MIN));
    assert_eq!(d.float_bits(), Some(5));
    assert_eq!(d.bytes(4), None);
    assert_eq!(d.bytes(3), Some(vec![1, 2, 3]));
    assert!(d.exhausted());
    assert_eq!(d.u8(), None);
    assert_eq!(d.u16(), None);
    assert_eq!(d.u32(), None);
    assert_eq!(d.u64(), None);
}

#[test]
fn signed_numbers_keep_their_bits() {
    for v in [0, 1, -1, i32::MAX, i32::MIN] {
        assert_eq!(to_unsigned(v), v as u32);
        assert_eq!(to_signed(v as u32), v);
    }
}

#[test]
fn frames_carry_their_length() {
    let mut e = Enc::new();
    e.bytes(&[1, 2, 3]);
    let f = e.frame(0x42);
    assert_eq!(f, vec![0x42, 3, 0, 0, 0, 1, 2, 3]);
    assert_eq!(frame_header(&f), Some((0x42, &[1u8, 2, 3][..])));
    assert_eq!(frame_header(&f[..7]), None);
    assert_eq!(frame_header(&f[..4]), None);
    assert!(frame_len(&f, 0).is_some());
    assert_eq!(frame_len(&f[..7], 0), None);
}

#[test]
fn blocks_lie_in_their_chunks() {
    for (x, c, l) in [(0, 0, 0), (15, 0, 15), (16, 1, 0), (-1, -1, 15), (-16, -1, 0), (-17, -2, 15)] {
        assert_eq!(floor_chunk(x), c);
        let p = BlockPos::new(x, 5, x);
        assert_eq!(ChunkPos::of(p), ChunkPos::new(c, 0, c));
        assert_eq!(p.local(), BlockPos::new(l, 5, l));
        let o = ChunkPos::of(p).origin();
        assert_eq!((o.x + p.local().x, o.y + p.local().y), (p.x, p.y));
    }
    assert!(BlockPos::new(0, 0, 0).in_world_y());
    assert!(!BlockPos::new(0, WORLD_HEIGHT, 0).in_world_y());
    assert!(!BlockPos::new(0, -1, 0).in_world_y());
    assert!(ChunkPos::new(0, 4, 0).guaranteed_air());
    assert!(!ChunkPos::new(0, 3, 0).guaranteed_air());
}

#[test]
fn cells_have_numbers_of_their_own() {
    assert_eq!(chunk_index(BlockPos::new(0, 0, 0)), 0);
    assert_eq!(chunk_index(BlockPos::new(1, 0, 0)), 1);
    assert_eq!(chunk_index(BlockPos::new(0, 0, 1)), 16);
    assert_eq!(chunk_index(BlockPos::new(0, 1, 0)), 256);
    assert_eq!(region_index(BlockPos::new(25, 25, 25)), 17575);
    assert_eq!(region_index(BlockPos::new(1, 2, 3)), (2 * 26 + 3) * 26 + 1);
    assert_ne!(pack(1, 2, 3), pack(3, 2, 1));
    assert_ne!(pack(-1, 0, 0), pack(0, -1, 0));
}

#[test]
fn keys_are_held_and_let_go() {
    let mut k = KeySet::default();
    assert_eq!(k.bits(), 0);
    k.insert(Key::W);
    k.insert(Key::D);
    assert!(k.contains(Key::W) && !k.contains(Key::S));
    assert_eq!(k.axes(), (1, 1));
    k.insert(Key::S);
    assert_eq!(k.axes(), (0, 1));
    k.remove(Key::W);
    assert_eq!(k.axes(), (-1, 1));
    assert_eq!(KeySet::from_bits(k.bits()).bits(), k.bits());
    assert_eq!(KeySet::bit(Key::BracketRight), 1 << 15);
    let i = Input::default();
    assert_eq!((i.keys.bits(), i.mouse_dx, i.analog_y), (0, 0, 0));
}

#[test]
fn bytes_become_text() {
    assert_eq!(base64(b""), "");
    assert_eq!(base64(b"f"), "Zg==");
    assert_eq!(base64(b"fo"), "Zm8=");
    assert_eq!(base64(b"foo"), "Zm9v");
    assert_eq!(base64(b"foobar"), "Zm9vYmFy");
    assert_eq!(base64(&[0xff, 0xfb, 0xbf]), "//u/");
    assert_eq!(base64(&[0xfb, 0xef, 0xbe]), "++++");
    assert_ne!(base64(&[0]), base64(&[0, 0]));
}

#[test]
fn long_texts_take_lines() {
    let s: String = "ab".repeat(12_500);
    let v = lines_of(&s);
    assert_eq!(v.iter().map(|l| l.len()).collect::<Vec<_>>(), vec![12_000, 12_000, 1_000]);
    assert_eq!(v.concat(), s);
    assert!(lines_of("").is_empty());
    assert_eq!(lines_of(&"x".repeat(12_000)).len(), 1);
}

#[test]
fn regions_are_averaged_from_the_top() {
    let mut px = vec![0u8; PICTURE_BYTES];
    for y in 0..144 {
        for x in 0..256 {
            let i = (y * 256 + x) * 4;
            px[i] = (x / 64) as u8 * 10;
            px[i + 1] = (y / 48) as u8 * 100;
            px[i + 2] = if x % 2 == 0 { 255 } else { 0 };
        }
    }
    let want: Vec<String> = (0..12)
        .map(|k| format!("{},{},{}; ", k % 4 * 10, (2 - k / 4) * 100, 127))
        .collect();
    assert_eq!(grid_report(&px), want.concat());
}

#[test]
fn scenes_are_put_together() {
    let mut data = vec![0u8; 17576];
    data[region_index(BlockPos::new(13, 13, 13))] = 3;
    let part = |x: i32| Streamed { pos: ChunkPos::new(x, 0, 0), data: data.clone() };
    let empty = Streamed { pos: ChunkPos::new(5, 0, 0), data: vec![0u8; 17576] };
    let short = Streamed { pos: ChunkPos::new(6, 0, 0), data: vec![3u8; 5] };
    let one = scene(&vec![part(0)]);
    let two = scene(&vec![part(0), empty, short, part(2)]);
    assert_eq!(one.vertices.len(), 24);
    assert_eq!(two.vertices.len(), 48);
    assert_eq!(&two.indices[..36], &one.indices[..]);
    for (a, b) in one.indices.iter().zip(&two.indices[36..]) {
        assert_eq!(a + 24, *b);
    }
    assert_eq!(two.vertices[24].x, one.vertices[0].x + 32_000);
    assert!(scene(&vec![]).is_empty());
    let checked = checked_scene(&vec![part(0)]).unwrap();
    assert_eq!((checked.vertices, checked.indices), (one.vertices, one.indices));
}

#[test]
fn failed_reads_leave_the_place() {
    let b = [9, 1, 2];
    let mut d = Dec::new(&b);
    assert_eq!((d.u32(), d.u64(), d.i32(), d.float_bits()), (None, None, None, None));
    assert_eq!(d.bytes(4), None);
    assert_eq!(d.u8(), Some(9));
    assert_eq!(d.u32(), None);
    assert_eq!(d.u16(), Some(513));
    assert_eq!((d.u8(), d.u16()), (None, None));
    assert!(d.exhausted());
}
