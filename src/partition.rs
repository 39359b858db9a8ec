use vstd::prelude::*;

verus! {

/// The end of the window that starts at `cur`: `min(cur + width, end)`.
pub open spec fn window_end(cur: u32, end: u32, width: u32) -> u32 {
    if end - cur <= width {
        end
    } else {
        (cur + width) as u32
    }
}

/// The fixed-width windows that cover `[start, end)`, walking forward from `start`.
pub open spec fn windows_of(start: u32, end: u32, width: u32) -> Seq<(u32, u32)>
    decreases end - start,
{
    if start >= end || width == 0 {
        seq![]
    } else {
        seq![(start, window_end(start, end, width))] + windows_of(
            window_end(start, end, width),
            end,
            width,
        )
    }
}

/// The windows tile `[start, end)`: they are contiguous and non-empty, the first starts
/// at `start`, the last ends at `end`, each is at most `width` long and all but the
/// last are exactly `width` long.
pub open spec fn tiles(w: Seq<(u32, u32)>, start: u32, end: u32, width: u32) -> bool {
    &&& (w.len() == 0 <==> start == end)
    &&& w.len() > 0 ==> w[0].0 == start && w.last().1 == end
    &&& forall|i: int| 0 <= i < w.len() - 1 ==> #[trigger] w[i].1 == w[i + 1].0
    &&& forall|i: int| 0 <= i < w.len() ==> w[i].0 < #[trigger] w[i].1 && w[i].1 - w[i].0 <= width
    &&& forall|i: int| 0 <= i < w.len() - 1 ==> #[trigger] w[i].1 - w[i].0 == width
}

/// For every `start <= end` and `width >= 1`, the windows concatenate to exactly
/// `[start, end)` with no gap or overlap, and each has length `width` except possibly
/// the last, which is never longer.
pub proof fn lemma_windows_tile(start: u32, end: u32, width: u32)
    requires
        start <= end,
        width >= 1,
    ensures
        tiles(windows_of(start, end, width), start, end, width),
    decreases end - start,
{
    if start < end {
        let next = window_end(start, end, width);
        lemma_windows_tile(next, end, width);
        let rest = windows_of(next, end, width);
        let w = windows_of(start, end, width);
        assert(w == seq![(start, next)] + rest);
        assert forall|i: int| 0 <= i < w.len() - 1 implies #[trigger] w[i].1 == w[i + 1].0 by {
            if i > 0 {
                assert(w[i] == rest[i - 1]);
                assert(w[i + 1] == rest[i]);
            }
        }
        assert forall|i: int| 0 <= i < w.len() implies w[i].0 < #[trigger] w[i].1 && w[i].1
            - w[i].0 <= width by {
            if i > 0 {
                assert(w[i] == rest[i - 1]);
            }
        }
        assert forall|i: int| 0 <= i < w.len() - 1 implies #[trigger] w[i].1 - w[i].0
            == width by {
            if i > 0 {
                assert(w[i] == rest[i - 1]);
            }
        }
        if rest.len() > 0 {
            assert(w.last() == rest.last());
        }
    }
}

/// Splits `[start, end)` into consecutive windows of `interval_length` bytes, the last
/// one possibly shorter; empty when `start >= end`.
pub fn divide_range_into_intervals(start: u32, end: u32, interval_length: u32) -> (r: Vec<
    (u32, u32),
>)
    requires
        interval_length >= 1,
    ensures
        r@ == windows_of(start, end, interval_length),
        start <= end ==> tiles(r@, start, end, interval_length),
        start >= end ==> r@.len() == 0,
{
    let mut intervals: Vec<(u32, u32)> = Vec::new();
    let mut current_start: u32 = start;
    while current_start < end
        invariant
            interval_length >= 1,
            start < end ==> start <= current_start <= end,
            intervals@ + windows_of(current_start, end, interval_length) == windows_of(
                start,
                end,
                interval_length,
            ),
        decreases end - current_start,
    {
        let current_end: u32 = if end - current_start <= interval_length {
            end
        } else {
            current_start + interval_length
        };
        assert(windows_of(current_start, end, interval_length) == seq![
            (current_start, current_end),
        ] + windows_of(current_end, end, interval_length));
        intervals.push((current_start, current_end));
        assert(intervals@ + windows_of(current_end, end, interval_length) == windows_of(
            start,
            end,
            interval_length,
        ));
        current_start = current_end;
    }
    assert(windows_of(current_start, end, interval_length) == Seq::<(u32, u32)>::empty());
    assert(intervals@ == intervals@ + Seq::<(u32, u32)>::empty());
    proof {
        if start <= end {
            lemma_windows_tile(start, end, interval_length);
        }
    }
    intervals
}

} // verus!
