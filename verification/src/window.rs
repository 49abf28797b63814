//! Fixed-window averaging of a chronological series.

use crate::extractor::Response;
use vstd::prelude::*;

verus! {

/// The sum of the durations of `records[from..to)`.
pub open spec fn total(records: Seq<Response>, from: int, to: int) -> int
    decreases to - from,
{
    if to <= from {
        0
    } else {
        total(records, from, to - 1) + records[to - 1].exec_time
    }
}

/// The quotient rounded toward zero, for a positive divisor.
pub open spec fn truncated_quotient(a: int, b: int) -> int {
    if a >= 0 {
        a / b
    } else {
        -((-a) / b)
    }
}

/// Where window `j` starts in a series cut every `step` records.
pub open spec fn window_start(step: int, j: int) -> int {
    j * step
}

/// Where window `j` ends (exclusive): it spans `step - 1` records, and never
/// reaches the last record of a series of length `n`.
pub open spec fn window_end(n: int, step: int, j: int) -> int {
    if j * step + step - 1 <= n - 1 {
        j * step + step - 1
    } else {
        n - 1
    }
}

/// The record that lends window `j` its timestamp: the one half a step into
/// the window, or the last record where the series is shorter.
pub open spec fn window_anchor(n: int, step: int, j: int) -> int {
    if j * step + step / 2 <= n - 1 {
        j * step + step / 2
    } else {
        n - 1
    }
}

/// How many windows a series of `n` records yields: the starts `0, step, ..`
/// that lie before the last record, and none at all for a step of one.
pub open spec fn window_count(n: int, step: int) -> int {
    if step <= 1 {
        0
    } else {
        (n + step - 2) / step
    }
}

/// The truncated mean duration of window `j`.
pub open spec fn window_mean(records: Seq<Response>, step: int, j: int) -> int {
    let from = window_start(step, j);
    let to = window_end(records.len() as int, step, j);
    truncated_quotient(total(records, from, to), to - from)
}

/// `out` is the point that window `j` contributes: the anchor's timestamp
/// and the window's mean.
pub open spec fn is_window_point(records: Seq<Response>, step: int, j: int, out: Response) -> bool {
    let anchor = records[window_anchor(records.len() as int, step, j)];
    &&& out.date_as_string@ == anchor.date_as_string@
    &&& out.date_as_timestamp == anchor.date_as_timestamp
    &&& out.exec_time == window_mean(records, step, j)
}

/// A step of one yields no window, whatever the series.
pub proof fn lemma_step_one_gives_nothing(n: int)
    ensures
        window_count(n, 1) == 0,
{
}

/// Every window that is counted is a real one: it starts before it ends,
/// spans at most `step - 1` records, never reaches the last record, and its
/// anchor is a record of the series at or after its start.
pub proof fn lemma_window_bounds(n: int, step: int, j: int)
    requires
        n >= 1,
        step >= 1,
        0 <= j < window_count(n, step),
    ensures
        0 <= window_start(step, j) < window_end(n, step, j) <= n - 1,
        window_end(n, step, j) - window_start(step, j) <= step - 1,
        window_start(step, j) <= window_anchor(n, step, j) <= n - 1,
{
    assert(0 <= j * step < n - 1) by (nonlinear_arith)
        requires
            step >= 2,
            0 <= j < (n + step - 2) / step,
    ;
}

/// The windows are all there are: the start that would follow the last
/// counted window does not lie before the last record.
pub proof fn lemma_window_count_is_exact(n: int, step: int)
    requires
        n >= 1,
        step >= 2,
    ensures
        window_count(n, step) >= 0,
        window_start(step, window_count(n, step)) >= n - 1,
{
    let c = (n + step - 2) / step;
    assert(c >= 0 && c * step >= n - 1) by (nonlinear_arith)
        requires
            c == (n + step - 2) / step,
            n >= 1,
            step >= 2,
    ;
}

/// Windows follow one another without overlap.
pub proof fn lemma_windows_are_disjoint(n: int, step: int, j: int)
    requires
        n >= 1,
        step >= 1,
        0 <= j,
    ensures
        window_end(n, step, j) < window_start(step, j + 1),
{
    assert((j + 1) * step == j * step + step) by (nonlinear_arith);
}

/// The sum of a run of durations lies between the extremes of its length.
proof fn lemma_total_bounds(records: Seq<Response>, from: int, to: int)
    requires
        0 <= from <= to <= records.len(),
    ensures
        (to - from) * (i32::MIN as int) <= total(records, from, to) <= (to - from) * (i32::MAX as int),
    decreases to - from,
{
    if to > from {
        lemma_total_bounds(records, from, to - 1);
    }
}

/// The truncated mean of a run of durations, which is itself a duration.
fn mean(records: &Vec<Response>, from: usize, to: usize) -> (r: i32)
    requires
        from < to <= records.len(),
    ensures
        r == truncated_quotient(total(records@, from as int, to as int), to - from),
{
    let mut sum: i128 = 0;
    let mut x: usize = from;
    while x < to
        invariant
            from <= x <= to <= records.len(),
            sum == total(records@, from as int, x as int),
            (x - from) * (i32::MIN as int) <= sum <= (x - from) * (i32::MAX as int),
        decreases to - x,
    {
        sum = sum + records[x].exec_time as i128;
        x += 1;
    }
    let count: i128 = (to - from) as i128;
    if sum >= 0 {
        let q: i128 = sum / count;
        assert(0 <= q <= i32::MAX) by (nonlinear_arith)
            requires
                q == (sum as int) / (count as int),
                0 <= sum <= count * (i32::MAX as int),
                count > 0,
        ;
        q as i32
    } else {
        let q: i128 = (-sum) / count;
        assert(0 <= q <= -(i32::MIN as int)) by (nonlinear_arith)
            requires
                q == (-(sum as int)) / (count as int),
                0 <= -(sum as int) <= count * (-(i32::MIN as int)),
                count > 0,
        ;
        (-q) as i32
    }
}

/// Compresses a chronological series into one point per window of `step`
/// records. Each point carries the timestamp of a record of the series and
/// the truncated mean of the first `step - 1` durations of its window.
pub fn averages(response: &Vec<Response>, step: usize) -> (av: Vec<Response>)
    requires
        response.len() >= 1,
        step >= 1,
    ensures
        av@.len() == window_count(response@.len() as int, step as int),
        forall|j: int| 0 <= j < av@.len() ==> is_window_point(response@, step as int, j, #[trigger] av@[j]),
{
    let n: usize = response.len();
    let mut av: Vec<Response> = Vec::new();
    let mut start: usize = 0;
    assert(av@.len() * step == 0) by (nonlinear_arith)
        requires
            av@.len() == 0,
    ;
    loop
        invariant_except_break
            start < n,
            start == av@.len() * step,
        invariant
            n == response.len(),
            step >= 1,
            step == 1 ==> av@.len() == 0,
            forall|j: int| 0 <= j < av@.len() ==> is_window_point(response@, step as int, j, #[trigger] av@[j]),
        ensures
            av@.len() == window_count(n as int, step as int),
            forall|j: int| 0 <= j < av@.len() ==> is_window_point(response@, step as int, j, #[trigger] av@[j]),
        decreases n - start,
    {
        let ghost j = av@.len() as int;
        let end: usize = if step - 1 >= n - 1 - start {
            n - 1
        } else {
            start + step - 1
        };
        assert(end == window_end(n as int, step as int, j));
        if start >= end {
            proof {
                if step > 1 {
                    assert((n + step - 2) / (step as int) == j) by (nonlinear_arith)
                        requires
                            n - 1 == j * step,
                            step > 1,
                    ;
                }
            }
            break ;
        }
        let average: i32 = mean(response, start, end);
        let s2: usize = if step / 2 >= n - 1 - start {
            n - 1
        } else {
            start + step / 2
        };
        assert(s2 == window_anchor(n as int, step as int, j));
        let point = Response {
            date_as_string: response[s2].date_as_string.clone(),
            date_as_timestamp: response[s2].date_as_timestamp,
            exec_time: average,
        };
        assert(is_window_point(response@, step as int, j, point));
        av.push(point);
        if step >= n - start {
            proof {
                assert((n + step - 2) / (step as int) == j + 1) by (nonlinear_arith)
                    requires
                        start == j * step,
                        start < n - 1,
                        start + step >= n,
                        step > 1,
                ;
            }
            break ;
        }
        assert((j + 1) * step == start + step) by (nonlinear_arith)
            requires
                start == j * step,
        ;
        start += step;
    }
    av
}

} // verus!
