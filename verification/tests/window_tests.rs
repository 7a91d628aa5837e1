use fractal_anim::window::{visible_range, window_at};

#[test]
fn window_is_empty_at_time_zero() {
    assert_eq!(window_at(16, 0), (0, 0));
    assert_eq!(window_at(256, 0), (0, 0));
}

#[test]
fn window_grows_until_a_full_length_has_passed() {
    assert_eq!(window_at(16, 10), (0, 10));
    assert_eq!(window_at(16, 16), (0, 16));
    assert_eq!(visible_range(16, 10), (0, 10));
}

#[test]
fn window_slides_once_a_full_length_behind() {
    assert_eq!(window_at(16, 20), (4, 20));
    // materializing truncates at the end of the sequence.
    assert_eq!(visible_range(16, 20), (4, 12));
}

#[test]
fn boundary_scenario_at_virtual_index_300() {
    // 256 points, virtual index 300: the start has advanced by 44; the raw
    // count is 300 mod 512; the slice a consumer may take is truncated to
    // the 212 points left of the sequence.
    assert_eq!(window_at(256, 300), (44, 300));
    assert_eq!(visible_range(256, 300), (44, 212));
}

#[test]
fn window_dies_out_after_two_full_lengths() {
    assert_eq!(window_at(256, 511), (255, 511));
    assert_eq!(visible_range(256, 511), (255, 1));
    assert_eq!(window_at(256, 512), (256, 0));
    assert_eq!(visible_range(256, 512), (256, 0));
    // far beyond, the start stays clamped at the sequence length.
    assert_eq!(visible_range(256, 100_000), (256, 0));
}

#[test]
fn count_is_periodic_with_twice_the_length() {
    for n in [1u64, 4, 16, 256] {
        for vt in 0..(4 * n) {
            let (_, c1) = window_at(n, vt);
            let (_, c2) = window_at(n, vt + 2 * n);
            assert_eq!(c1, c2);
        }
    }
}

#[test]
fn start_never_moves_backwards() {
    for n in [4u64, 16, 256] {
        let mut last = 0u64;
        for vt in 0..(5 * n) {
            let (s, _) = window_at(n, vt);
            assert!(s >= last);
            last = s;
        }
    }
}

#[test]
fn slice_never_reads_past_the_end() {
    for n in [1u64, 7, 16, 256] {
        for vt in 0..(5 * n) {
            let (s, len) = visible_range(n, vt);
            assert!(s + len <= n);
        }
    }
}
