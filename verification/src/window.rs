//! The time-driven reveal window over an ordered sequence.
//!
//! A sequence of `n` items is revealed over time.  The caller turns elapsed
//! time into a virtual index `vt` (elapsed time times a points-per-second
//! rate, floored); the window is then a pure function of `n` and `vt`:
//! the start chases `vt` once it is a full sequence length behind, so the
//! window first grows and then slides, while the raw count oscillates with
//! period `2 * n`.  Materializing the visible slice truncates at the end of
//! the sequence.

use vstd::prelude::*;

verus! {

/// Start index of the reveal window: `vt - n` once the virtual index has
/// advanced a full sequence length, clamped into `[0, n]`.
pub open spec fn window_start(n: int, vt: int) -> int {
    if vt - n > n {
        n
    } else if vt - n > 0 {
        vt - n
    } else {
        0
    }
}

/// Raw item count of the reveal window: oscillates with period `2 * n`.
pub open spec fn window_count(n: int, vt: int) -> int {
    vt % (2 * n)
}

/// Length of the materialized slice: the raw count truncated so that the
/// slice `[start, start + len)` never reads past the end of the sequence.
pub open spec fn visible_len(n: int, vt: int) -> int {
    let s = window_start(n, vt);
    let c = window_count(n, vt);
    if c <= n - s {
        c
    } else {
        n - s
    }
}

/// Reveal window for a sequence of length `n` at virtual index `vt`:
/// returns `(start, count)` with `start` in `[0, n]` and `count` in
/// `[0, 2 * n)`.
pub fn window_at(n: u64, vt: u64) -> (r: (u64, u64))
    requires
        1 <= n <= u64::MAX / 2,
    ensures
        r.0 == window_start(n as int, vt as int),
        r.1 == window_count(n as int, vt as int),
        r.0 <= n,
        r.1 < 2 * n,
{
    let start = if vt > n {
        let behind = vt - n;
        if behind > n {
            n
        } else {
            behind
        }
    } else {
        0
    };
    let count = vt % (2 * n);
    (start, count)
}

/// Reveal window with its count truncated at the sequence boundary:
/// returns `(start, len)` with `start + len <= n`, the slice a consumer
/// may materialize directly.
pub fn visible_range(n: u64, vt: u64) -> (r: (u64, u64))
    requires
        1 <= n <= u64::MAX / 2,
    ensures
        r.0 == window_start(n as int, vt as int),
        r.1 == visible_len(n as int, vt as int),
        r.0 + r.1 <= n,
{
    let (start, count) = window_at(n, vt);
    let room = n - start;
    let len = if count <= room {
        count
    } else {
        room
    };
    (start, len)
}

/// Law: at virtual index zero the window is empty and starts at the origin.
pub proof fn lemma_window_empty_at_origin(n: int)
    requires
        n >= 1,
    ensures
        window_start(n, 0) == 0,
        window_count(n, 0) == 0,
{
    vstd::arithmetic::div_mod::lemma_small_mod(0nat, (2 * n) as nat);
}

/// Law: the raw count is periodic in the virtual index with period `2 * n`.
pub proof fn lemma_window_count_periodic(n: int, vt: int)
    requires
        n >= 1,
        vt >= 0,
    ensures
        window_count(n, vt + 2 * n) == window_count(n, vt),
{
    vstd::arithmetic::div_mod::lemma_mod_add_multiples_vanish(vt, 2 * n);
}

/// Law: the window's start never moves backwards as time advances.
pub proof fn lemma_window_start_monotonic(n: int, vt1: int, vt2: int)
    requires
        n >= 1,
        vt1 <= vt2,
    ensures
        window_start(n, vt1) <= window_start(n, vt2),
{
}

} // verus!
