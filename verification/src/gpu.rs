//! Host/device marshalling for the GPU back end: widening the pixel buffer
//! to the device's word-per-pixel upload format, sizing the dispatch, and
//! the intensity transform applied to the words read back from the staging
//! buffer.

use vstd::prelude::*;

verus! {

/// Work items dispatched per workgroup; a tuning constant that affects
/// occupancy but never the rendered bytes.
pub const WORKGROUP_SIZE: usize = 256;

/// Upload format: one 32-bit device word per 8-bit host pixel, value
/// preserved.
pub fn widen_pixels(pixels: &Vec<u8>) -> (words: Vec<u32>)
    ensures
        words@.len() == pixels@.len(),
        forall|k: int| 0 <= k < pixels@.len() ==> words@[k] == pixels@[k] as u32,
{
    let mut words: Vec<u32> = Vec::new();
    let mut k: usize = 0;
    while k < pixels.len()
        invariant
            k <= pixels@.len(),
            words@.len() == k,
            forall|m: int| 0 <= m < k ==> words@[m] == pixels@[m] as u32,
        decreases pixels@.len() - k,
    {
        let p = pixels[k];
        words.push(p as u32);
        k = k + 1;
    }
    words
}

/// Workgroups needed to cover `size` work items, one work item per pixel:
/// the least count of `WORKGROUP_SIZE`-wide groups that reaches `size`.
pub fn workgroup_count(size: usize) -> (groups: usize)
    ensures
        groups * WORKGROUP_SIZE >= size,
        size == 0 ==> groups == 0,
        size > 0 ==> (groups - 1) * WORKGROUP_SIZE < size,
{
    proof {
        vstd::arithmetic::div_mod::lemma_fundamental_div_mod(
            size as int,
            WORKGROUP_SIZE as int,
        );
    }
    let groups = size / WORKGROUP_SIZE;
    if size % WORKGROUP_SIZE == 0 {
        groups
    } else {
        groups + 1
    }
}

/// The byte the host stores for one device word: 255 minus the word's low
/// byte. The kernel reports each pixel's escape count, or 255 where the
/// point never escaped, so the low byte carries the whole outcome.
pub open spec fn readback_byte(word: u32) -> u8 {
    (255 - word % 256) as u8
}

/// The device word the compute kernel writes for one pixel: the escape
/// count, or 255 where the point never escaped within the iteration limit.
pub open spec fn device_word_of(escape: Option<u32>) -> u32 {
    match escape {
        None => 255u32,
        Some(count) => count,
    }
}

/// The CPU back ends' shading and the GPU back end's readback transform
/// agree on every escape outcome: a kernel that reports the same escape
/// count as the host evaluator yields the same byte for every pixel.
pub proof fn lemma_shade_readback_agree(escape: Option<u32>)
    requires
        escape matches Some(count) ==> count < 255,
    ensures
        readback_byte(device_word_of(escape)) == crate::raster::shade_of(escape),
{
}

/// Copies the device words read back from the staging buffer into the host
/// pixel buffer, transforming each word into its intensity byte. The final
/// buffer depends on the device words alone, never on the buffer's previous
/// contents.
pub fn apply_readback(pixels: &mut Vec<u8>, words: &Vec<u32>)
    requires
        words@.len() == old(pixels)@.len(),
    ensures
        final(pixels)@.len() == old(pixels)@.len(),
        forall|k: int| 0 <= k < words@.len() ==> final(pixels)@[k] == readback_byte(words@[k]),
{
    let mut k: usize = 0;
    while k < words.len()
        invariant
            k <= words@.len(),
            words@.len() == pixels@.len(),
            forall|m: int| 0 <= m < k ==> pixels@[m] == readback_byte(words@[m]),
        decreases words@.len() - k,
    {
        let low = (words[k] % 256) as u8;
        pixels.set(k, 255 - low);
        k = k + 1;
    }
}

} // verus!
