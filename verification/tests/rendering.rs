use mandelbrot::bands::write_band;
use mandelbrot::gpu::{apply_readback, widen_pixels, workgroup_count};
use mandelbrot::raster::{buffer_len_matches, pixel_index, ITERATION_LIMIT};
use mandelbrot::shade;

#[test]
fn iteration_limit_is_byte_sized() {
    assert_eq!(ITERATION_LIMIT, 255);
}

#[test]
fn shades_exact_values() {
    assert_eq!(shade(None), 0);
    assert_eq!(shade(Some(0)), 255);
    assert_eq!(shade(Some(1)), 254);
    assert_eq!(shade(Some(254)), 1);
}

#[test]
fn indexes_row_major() {
    let bounds = (100, 100);
    assert_eq!(pixel_index(bounds, 0, 0), 0);
    assert_eq!(pixel_index(bounds, 3, 2), 203);
    assert_eq!(pixel_index(bounds, 99, 99), 9999);
    assert_eq!(pixel_index((7, 3), 0, 1), 7);
}

#[test]
fn checks_buffer_length() {
    assert!(buffer_len_matches(10000, (100, 100)));
    assert!(buffer_len_matches(0, (0, 5)));
    assert!(!buffer_len_matches(9999, (100, 100)));
    // The exact pixel count overflows a usize, so no buffer can fit it.
    assert!(!buffer_len_matches(usize::MAX, (usize::MAX, 2)));
}

#[test]
fn widens_each_pixel() {
    let pixels = vec![0u8, 1, 17, 255];
    assert_eq!(widen_pixels(&pixels), vec![0u32, 1, 17, 255]);
    assert_eq!(widen_pixels(&Vec::new()), Vec::<u32>::new());
}

#[test]
fn readback_transforms_each_word() {
    let mut pixels = vec![9u8, 9, 9, 9];
    let words = vec![255u32, 0, 254, 300];
    apply_readback(&mut pixels, &words);
    // 255 maps to 0 (never escaped); otherwise 255 minus the low byte.
    assert_eq!(pixels, vec![0, 255, 1, 211]);
}

#[test]
fn readback_agrees_with_cpu_shading() {
    // The kernel writes the escape count, or 255 for a point that never
    // escaped; reading those words back shades exactly as the CPU does.
    let mut pixels = vec![0u8; 4];
    let words = vec![255u32, 0, 1, 254];
    apply_readback(&mut pixels, &words);
    let cpu = [shade(None), shade(Some(0)), shade(Some(1)), shade(Some(254))];
    assert_eq!(pixels, cpu);
}

#[test]
fn readback_ignores_previous_contents() {
    let words = vec![10u32, 20, 30];
    let mut zeroed = vec![0u8; 3];
    let mut dirty = vec![7u8, 8, 9];
    apply_readback(&mut zeroed, &words);
    apply_readback(&mut dirty, &words);
    assert_eq!(zeroed, dirty);
    // A second pass over the same words changes nothing.
    let once = zeroed.clone();
    apply_readback(&mut zeroed, &words);
    assert_eq!(zeroed, once);
}

#[test]
fn band_writes_commute() {
    // A two-row image: writing the rows in either order composes the same
    // buffer, as the parallel back end relies on.
    let width = 3;
    let row0 = vec![1u8, 2, 3];
    let row1 = vec![4u8, 5, 6];

    let mut forward = vec![0u8; 6];
    write_band(&mut forward, width, 0, &row0);
    write_band(&mut forward, width, 1, &row1);

    let mut backward = vec![0u8; 6];
    write_band(&mut backward, width, 1, &row1);
    write_band(&mut backward, width, 0, &row0);

    assert_eq!(forward, vec![1, 2, 3, 4, 5, 6]);
    assert_eq!(forward, backward);
}

#[test]
fn band_schedules_compose_identically() {
    // Three rows written under three different schedules.
    let width = 2;
    let rows = [vec![1u8, 2], vec![3u8, 4], vec![5u8, 6]];
    let schedules: [[usize; 3]; 3] = [[0, 1, 2], [2, 0, 1], [1, 2, 0]];

    let mut outputs = Vec::new();
    for schedule in &schedules {
        let mut buf = vec![0u8; 6];
        for &i in schedule {
            write_band(&mut buf, width, i, &rows[i]);
        }
        outputs.push(buf);
    }
    assert_eq!(outputs[0], vec![1, 2, 3, 4, 5, 6]);
    assert_eq!(outputs[0], outputs[1]);
    assert_eq!(outputs[0], outputs[2]);
}

#[test]
fn band_write_is_idempotent() {
    let mut buf = vec![9u8; 4];
    let band = vec![1u8, 2];
    write_band(&mut buf, 2, 1, &band);
    let once = buf.clone();
    write_band(&mut buf, 2, 1, &band);
    assert_eq!(buf, once);
    assert_eq!(buf, vec![9, 9, 1, 2]);
}

#[test]
fn sizes_dispatch_to_cover_all_pixels() {
    assert_eq!(workgroup_count(0), 0);
    assert_eq!(workgroup_count(1), 1);
    assert_eq!(workgroup_count(256), 1);
    assert_eq!(workgroup_count(257), 2);
    // The golden scenario's 100x100 image needs 40 groups of 256.
    assert_eq!(workgroup_count(10000), 40);
}
