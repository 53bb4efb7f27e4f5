//! The band decomposition used by the parallel back end: one horizontal
//! band per image row, each a disjoint slice of the row-major pixel buffer,
//! so the bands can be filled concurrently without locks and recomposed in
//! any order.

use vstd::prelude::*;

verus! {

/// The pixel buffer with band `i` replaced by `band`: the `width` bytes
/// starting at index `i * width`, which hold the image's row `i`. All other
/// bytes keep their previous value.
pub open spec fn place_band(buf: Seq<u8>, width: nat, i: nat, band: Seq<u8>) -> Seq<u8>
    recommends
        band.len() == width,
{
    Seq::new(
        buf.len(),
        |k: int|
            if i * width <= k < i * width + width {
                band[k - i * width]
            } else {
                buf[k]
            },
    )
}

/// Bands with distinct indices occupy disjoint index ranges: the earlier
/// band ends no later than the later one begins.
pub proof fn lemma_band_ranges_disjoint(width: nat, i: nat, j: nat)
    by (nonlinear_arith)
    requires
        i < j,
    ensures
        i * width + width <= j * width,
{
}

/// Writes one band into the pixel buffer in place.
pub fn write_band(pixels: &mut Vec<u8>, width: usize, i: usize, band: &Vec<u8>)
    requires
        band@.len() == width,
        (i + 1) * width <= old(pixels)@.len(),
    ensures
        final(pixels)@ == place_band(old(pixels)@, width as nat, i as nat, band@),
{
    let n = pixels.len();
    proof {
        assert((i + 1) * width == i * width + width) by (nonlinear_arith);
    }
    let start = i * width;
    let mut k: usize = 0;
    while k < width
        invariant
            k <= width,
            band@.len() == width,
            start == i * width,
            start + width <= n,
            n == old(pixels)@.len(),
            pixels@.len() == old(pixels)@.len(),
            forall|m: int| start <= m < start + k ==> pixels@[m] == band@[m - start],
            forall|m: int|
                0 <= m < pixels@.len() && !(start <= m < start + k) ==> pixels@[m] == old(
                    pixels,
                )@[m],
        decreases width - k,
    {
        pixels.set(start + k, band[k]);
        k = k + 1;
    }
    proof {
        assert(pixels@ =~= place_band(old(pixels)@, width as nat, i as nat, band@));
    }
}

/// Writing two bands with distinct indices commutes: each band writes only
/// its own disjoint slice, so the order in which the parallel back end's
/// tasks are scheduled cannot change the buffer they compose.
pub proof fn lemma_place_band_commutes(
    buf: Seq<u8>,
    width: nat,
    i: nat,
    j: nat,
    bi: Seq<u8>,
    bj: Seq<u8>,
)
    requires
        i != j,
        bi.len() == width,
        bj.len() == width,
    ensures
        place_band(place_band(buf, width, i, bi), width, j, bj) == place_band(
            place_band(buf, width, j, bj),
            width,
            i,
            bi,
        ),
{
    if i < j {
        lemma_band_ranges_disjoint(width, i, j);
    } else {
        lemma_band_ranges_disjoint(width, j, i);
    }
    assert(place_band(place_band(buf, width, i, bi), width, j, bj) =~= place_band(
        place_band(buf, width, j, bj),
        width,
        i,
        bi,
    ));
}

/// Writing the same band twice leaves what one write leaves: with a fixed
/// input, rendering into a buffer again reproduces the same contents.
pub proof fn lemma_place_band_idempotent(buf: Seq<u8>, width: nat, i: nat, band: Seq<u8>)
    requires
        band.len() == width,
    ensures
        place_band(place_band(buf, width, i, band), width, i, band) == place_band(
            buf,
            width,
            i,
            band,
        ),
{
    assert(place_band(place_band(buf, width, i, band), width, i, band) =~= place_band(
        buf,
        width,
        i,
        band,
    ));
}

/// Whether every band holds exactly one row's worth of bytes.
pub open spec fn bands_well_formed(bands: Seq<Seq<u8>>, width: nat) -> bool {
    forall|b: int| 0 <= b < bands.len() ==> (#[trigger] bands[b]).len() == width
}

/// The buffer left after writing the bands named by `order`, in that order:
/// the recomposition step of the parallel back end, for whatever schedule
/// the worker pool happened to follow.
pub open spec fn compose_bands(
    buf: Seq<u8>,
    width: nat,
    bands: Seq<Seq<u8>>,
    order: Seq<int>,
) -> Seq<u8>
    decreases order.len(),
{
    if order.len() == 0 {
        buf
    } else {
        place_band(
            compose_bands(buf, width, bands, order.drop_last()),
            width,
            order.last() as nat,
            bands[order.last()],
        )
    }
}

/// Composing bands never changes the buffer's length.
proof fn lemma_compose_len(buf: Seq<u8>, width: nat, bands: Seq<Seq<u8>>, order: Seq<int>)
    ensures
        compose_bands(buf, width, bands, order).len() == buf.len(),
    decreases order.len(),
{
    if order.len() > 0 {
        lemma_compose_len(buf, width, bands, order.drop_last());
    }
}

proof fn lemma_compose_push(buf: Seq<u8>, width: nat, bands: Seq<Seq<u8>>, order: Seq<int>, x: int)
    ensures
        compose_bands(buf, width, bands, order.push(x)) == place_band(
            compose_bands(buf, width, bands, order),
            width,
            x as nat,
            bands[x],
        ),
{
    assert(order.push(x).drop_last() =~= order);
}

/// Writing the band at position `p` of the schedule can be postponed to the
/// end, provided no later entry writes the same band.
proof fn lemma_compose_extract(
    buf: Seq<u8>,
    width: nat,
    bands: Seq<Seq<u8>>,
    order: Seq<int>,
    p: int,
)
    requires
        0 <= p < order.len(),
        forall|k: int| 0 <= k < order.len() ==> 0 <= #[trigger] order[k] < bands.len(),
        bands_well_formed(bands, width),
        forall|k: int| p < k < order.len() ==> order[k] != order[p],
    ensures
        compose_bands(buf, width, bands, order) == place_band(
            compose_bands(buf, width, bands, order.remove(p)),
            width,
            order[p] as nat,
            bands[order[p]],
        ),
    decreases order.len(),
{
    if p == order.len() - 1 {
        assert(order.remove(p) =~= order.drop_last());
    } else {
        let rest = order.drop_last();
        let y = order.last();
        lemma_compose_extract(buf, width, bands, rest, p);
        lemma_place_band_commutes(
            compose_bands(buf, width, bands, rest.remove(p)),
            width,
            order[p] as nat,
            y as nat,
            bands[order[p]],
            bands[y],
        );
        lemma_compose_push(buf, width, bands, rest.remove(p), y);
        assert(order.remove(p) =~= rest.remove(p).push(y));
    }
}

/// Dropping one schedule entry keeps the entries distinct and in range.
proof fn lemma_order_remove_keeps(order: Seq<int>, p: int, bound: int)
    requires
        0 <= p < order.len(),
        order.no_duplicates(),
        forall|k: int| 0 <= k < order.len() ==> 0 <= #[trigger] order[k] < bound,
    ensures
        order.remove(p).no_duplicates(),
        forall|k: int| 0 <= k < order.remove(p).len() ==> 0 <= #[trigger] order.remove(p)[k]
            < bound,
{
}

/// Band independence in full: two schedules that write the same distinct
/// bands, each exactly once and in any order, compose the same buffer. The
/// parallel back end's output therefore cannot depend on how its tasks were
/// scheduled.
pub proof fn lemma_compose_bands_order_independent(
    buf: Seq<u8>,
    width: nat,
    bands: Seq<Seq<u8>>,
    order1: Seq<int>,
    order2: Seq<int>,
)
    requires
        bands_well_formed(bands, width),
        forall|k: int| 0 <= k < order1.len() ==> 0 <= #[trigger] order1[k] < bands.len(),
        forall|k: int| 0 <= k < order2.len() ==> 0 <= #[trigger] order2[k] < bands.len(),
        order1.no_duplicates(),
        order2.no_duplicates(),
        order1.to_multiset() == order2.to_multiset(),
    ensures
        compose_bands(buf, width, bands, order1) == compose_bands(buf, width, bands, order2),
    decreases order1.len(),
{
    broadcast use vstd::seq_lib::group_to_multiset_ensures;

    if order1.len() == 0 {
        assert(order2.to_multiset().len() == 0);
        assert(order2.len() == 0);
    } else {
        let x = order1.last();
        assert(order1.contains(x));
        assert(order2.to_multiset().count(x) > 0);
        assert(order2.contains(x));
        let p = choose|i: int| 0 <= i < order2.len() && order2[i] == x;
        lemma_compose_extract(buf, width, bands, order2, p);

        let shorter1 = order1.remove(order1.len() - 1);
        let shorter2 = order2.remove(p);
        lemma_order_remove_keeps(order1, order1.len() - 1, bands.len() as int);
        lemma_order_remove_keeps(order2, p, bands.len() as int);
        assert(shorter1.to_multiset() =~= order1.to_multiset().remove(x));
        assert(shorter2.to_multiset() =~= order2.to_multiset().remove(x));
        lemma_compose_bands_order_independent(buf, width, bands, shorter1, shorter2);
        assert(shorter1 =~= order1.drop_last());
    }
}

/// The schedule that writes bands `0` to `n - 1` in row order.
pub open spec fn full_schedule(n: int) -> Seq<int> {
    Seq::new(n as nat, |i: int| i)
}

/// What the row-ordered schedule leaves at index `k`: the bytes of the
/// first `n` bands where they have been written, the buffer's initial
/// contents elsewhere.
proof fn lemma_prefix_compose_value(buf: Seq<u8>, width: nat, bands: Seq<Seq<u8>>, n: int, k: int)
    requires
        width > 0,
        bands_well_formed(bands, width),
        0 <= n <= bands.len(),
        0 <= k < buf.len(),
    ensures
        compose_bands(buf, width, bands, full_schedule(n))[k] == if k < width * n {
            bands[k / (width as int)][k % (width as int)]
        } else {
            buf[k]
        },
    decreases n,
{
    let w = width as int;
    if n == 0 {
        assert(full_schedule(0).len() == 0);
    } else {
        assert(full_schedule(n).drop_last() =~= full_schedule(n - 1));
        assert(full_schedule(n).last() == n - 1);
        lemma_compose_len(buf, width, bands, full_schedule(n - 1));
        lemma_prefix_compose_value(buf, width, bands, n - 1, k);
        assert((n - 1) * w + w == n * w) by (nonlinear_arith);
        assert(w * (n - 1) == (n - 1) * w && w * n == n * w) by (nonlinear_arith);
        if (n - 1) * w <= k < (n - 1) * w + w {
            vstd::arithmetic::div_mod::lemma_fundamental_div_mod_converse(
                k,
                w,
                n - 1,
                k - (n - 1) * w,
            );
        }
    }
}

/// A complete render determines the whole buffer: scheduling every band
/// exactly once, in any order, writes every byte from the bands alone and
/// leaves nothing of the buffer's initial contents. Rendering the same
/// bands into any two buffers of the right length — a zeroed one twice
/// over, or a dirty one — therefore composes byte-identical images.
pub proof fn lemma_complete_render_determined(
    buf1: Seq<u8>,
    buf2: Seq<u8>,
    width: nat,
    bands: Seq<Seq<u8>>,
    order: Seq<int>,
)
    requires
        width > 0,
        bands_well_formed(bands, width),
        buf1.len() == width * bands.len(),
        buf2.len() == width * bands.len(),
        order.no_duplicates(),
        order.to_multiset() == full_schedule(bands.len() as int).to_multiset(),
    ensures
        compose_bands(buf1, width, bands, order) == compose_bands(buf2, width, bands, order),
{
    broadcast use vstd::seq_lib::group_to_multiset_ensures;

    let n = bands.len() as int;
    let full = full_schedule(n);
    assert forall|k: int| 0 <= k < order.len() implies 0 <= #[trigger] order[k] < n by {
        assert(order.contains(order[k]));
        assert(full.to_multiset().count(order[k]) > 0);
        assert(full.contains(order[k]));
    }
    lemma_compose_bands_order_independent(buf1, width, bands, order, full);
    lemma_compose_bands_order_independent(buf2, width, bands, order, full);
    lemma_compose_len(buf1, width, bands, full);
    lemma_compose_len(buf2, width, bands, full);
    assert forall|k: int| 0 <= k < buf1.len() implies compose_bands(buf1, width, bands, full)[k]
        == compose_bands(buf2, width, bands, full)[k] by {
        lemma_prefix_compose_value(buf1, width, bands, n, k);
        lemma_prefix_compose_value(buf2, width, bands, n, k);
        assert(width * n == (width as int) * n);
        assert(k < width * n);
    }
    assert(compose_bands(buf1, width, bands, full) =~= compose_bands(buf2, width, bands, full));
}

/// Every index of the pixel buffer lies in exactly one band: the band of
/// its row. Together with the disjointness of distinct bands, the bands
/// partition the buffer, so writing all of them fills it completely.
pub proof fn lemma_band_of_index(width: nat, height: nat, k: nat)
    requires
        width > 0,
        k < width * height,
    ensures
        k / width < height,
        (k / width) * width <= k < (k / width) * width + width,
{
    vstd::arithmetic::div_mod::lemma_fundamental_div_mod(k as int, width as int);
    assert(k / width < height) by (nonlinear_arith)
        requires
            width > 0,
            k < width * height,
            k == width * (k / width) + k % width,
            0 <= k % width < width,
    ;
    assert((k / width) * width <= k < (k / width) * width + width) by (nonlinear_arith)
        requires
            width > 0,
            k == width * (k / width) + k % width,
            0 <= k % width < width,
    ;
}

} // verus!
