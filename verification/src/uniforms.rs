//! The uniform block of the shaders, byte for byte. Numbers with a fraction are held
//! by their bits.
use vstd::prelude::*;

use crate::wire;
use crate::wire::Enc;

verus! {

/// Bytes of the uniform block.
pub const UNIFORM_SIZE: u64 = 112;

/// The numbers of the uniform block: the matrix, the camera, where fog begins and
/// ends, and the sky, each filled up to whole rows of four.
pub open spec fn block_numbers(
    view_proj: Seq<u32>,
    cam: Seq<u32>,
    fog_start: u32,
    fog_end: u32,
    sky: Seq<u32>,
) -> Seq<u32> {
    view_proj + cam + seq![0u32, fog_start, fog_end, 0, 0] + sky + seq![0u32]
}

/// Numbers as bytes, the lowest byte of each first.
pub open spec fn number_bytes(v: Seq<u32>) -> Seq<u8>
    decreases v.len(),
{
    if v.len() == 0 {
        Seq::empty()
    } else {
        number_bytes(v.drop_last()) + wire::le4(v.last())
    }
}

/// The bytes of the uniform block.
pub fn uniform_bytes(
    view_proj: [u32; 16],
    cam: [u32; 3],
    fog_start: u32,
    fog_end: u32,
    sky: [u32; 3],
) -> (out: Vec<u8>)
    ensures
        out@ == number_bytes(block_numbers(view_proj@, cam@, fog_start, fog_end, sky@)),
        out@.len() == UNIFORM_SIZE,
{
    let ghost all = block_numbers(view_proj@, cam@, fog_start, fog_end, sky@);
    let mut v: Vec<u32> = Vec::new();
    let mut i: usize = 0;
    while i < 16
        invariant
            i <= 16,
            v@ == view_proj@.take(i as int),
        decreases 16 - i,
    {
        v.push(view_proj[i]);
        i = i + 1;
    }
    v.push(cam[0]);
    v.push(cam[1]);
    v.push(cam[2]);
    v.push(0);
    v.push(fog_start);
    v.push(fog_end);
    v.push(0);
    v.push(0);
    v.push(sky[0]);
    v.push(sky[1]);
    v.push(sky[2]);
    v.push(0);
    assert(v@ =~= all);
    let mut e = Enc::new();
    let mut k: usize = 0;
    while k < v.len()
        invariant
            k <= v@.len(),
            e@ == number_bytes(v@.take(k as int)),
        decreases v@.len() - k,
    {
        assert(v@.take(k as int + 1).drop_last() =~= v@.take(k as int));
        e.float_bits(v[k]);
        k = k + 1;
    }
    assert(v@.take(k as int) =~= v@);
    proof {
        bytes_of_numbers(v@);
    }
    e.into_bytes()
}

proof fn bytes_of_numbers(v: Seq<u32>)
    ensures
        number_bytes(v).len() == 4 * v.len(),
    decreases v.len(),
{
    broadcast use wire::group_number_lengths;

    if v.len() > 0 {
        bytes_of_numbers(v.drop_last());
    }
}

// ---- Laws ----------------------------------------------------------------------------

/// Each number of the block stands at four times its place.
pub proof fn numbers_stand_in_place(v: Seq<u32>, i: int)
    requires
        0 <= i < v.len(),
    ensures
        4 * i + 4 <= number_bytes(v).len(),
        wire::val4(number_bytes(v), 4 * i) == v[i],
    decreases v.len(),
{
    broadcast use wire::group_number_lengths;

    bytes_of_numbers(v);
    bytes_of_numbers(v.drop_last());
    let s = number_bytes(v.drop_last());
    if i == v.len() - 1 {
        assert(number_bytes(v).subrange(4 * i, 4 * i + 4) =~= wire::le4(v[i]));
        wire::number4_reads_back(number_bytes(v), 4 * i, v[i]);
    } else {
        numbers_stand_in_place(v.drop_last(), i);
        reveal(wire::val4);
    }
}

} // verus!
