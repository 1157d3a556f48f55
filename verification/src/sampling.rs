//! The series pipeline ahead of drawing: sliding-window truncation to the
//! most recent samples, nearest-index downsampling to the drawable width, and
//! linear scaling of values onto the target row range.

use vstd::prelude::*;

verus! {

/// The last `n` elements of a sequence; the whole sequence when it has no
/// more than `n`.
pub open spec fn window_spec(s: Seq<i64>, n: int) -> Seq<i64> {
    if s.len() > n {
        s.subrange(s.len() - n, s.len() as int)
    } else {
        s
    }
}

/// The source index that nearest-index downsampling selects for output
/// position `i`.
pub open spec fn resample_index(len: int, target: int, i: int) -> int {
    (i * len) / target
}

/// Nearest-index downsampling to exactly `target` samples; a series shorter
/// than `target` passes through unchanged (no interpolation).
pub open spec fn resample_spec(s: Seq<i64>, target: int) -> Seq<i64> {
    if target < 1 || s.len() < target {
        s
    } else {
        Seq::new(target as nat, |i: int| s[resample_index(s.len() as int, target, i)])
    }
}

/// `p / q` as a rational, rounded to the nearest integer, halves away from
/// zero; meaningful for `p >= 0`, `q >= 1`.
pub open spec fn round_ratio(p: int, q: int) -> int {
    (2 * p + q) / (2 * q)
}

/// Linear remapping of `v` from the value range `[min, max]` onto the row
/// range `[0, r-1]`.  A constant series (`max == min`) has no usable value
/// range and every sample is placed on the middle row.
pub open spec fn scale_value(v: int, min: int, max: int, r: int) -> int {
    if max == min {
        (r - 1) / 2
    } else {
        round_ratio((v - min) * (r - 1), max - min)
    }
}

/// The whole series scaled by [`scale_value`].
pub open spec fn scale_spec(s: Seq<i64>, min: int, max: int, r: int) -> Seq<i64> {
    Seq::new(s.len(), |i: int| scale_value(s[i] as int, min, max, r) as i64)
}

/// The smallest value of a non-empty sequence.
pub open spec fn seq_min(s: Seq<i64>) -> i64
    decreases s.len(),
{
    if s.len() <= 1 {
        s[0]
    } else {
        let m = seq_min(s.drop_last());
        if s.last() < m {
            s.last()
        } else {
            m
        }
    }
}

/// The largest value of a non-empty sequence.
pub open spec fn seq_max(s: Seq<i64>) -> i64
    decreases s.len(),
{
    if s.len() <= 1 {
        s[0]
    } else {
        let m = seq_max(s.drop_last());
        if s.last() > m {
            s.last()
        } else {
            m
        }
    }
}

/// Every element of a non-empty sequence lies between its minimum and its
/// maximum.
pub proof fn lemma_min_max_bound(s: Seq<i64>)
    requires
        s.len() >= 1,
    ensures
        forall|i: int| 0 <= i < s.len() ==> seq_min(s) <= #[trigger] s[i] <= seq_max(s),
        seq_min(s) <= seq_max(s),
    decreases s.len(),
{
    if s.len() > 1 {
        lemma_min_max_bound(s.drop_last());
        assert(forall|i: int| 0 <= i < s.len() - 1 ==> s.drop_last()[i] == s[i]);
        assert(s.last() == s[s.len() - 1]);
    }
}

/// Keep only the last `n` elements of the series.
pub fn keep_last(values: &Vec<i64>, n: usize) -> (out: Vec<i64>)
    ensures
        out@ == window_spec(values@, n as int),
{
    let len = values.len();
    let start: usize = if len > n {
        len - n
    } else {
        0
    };
    let mut out: Vec<i64> = Vec::new();
    let mut i: usize = start;
    while i < len
        invariant
            start <= i <= len,
            len == values@.len(),
            out@ =~= values@.subrange(start as int, i as int),
        decreases len - i,
    {
        out.push(values[i]);
        i = i + 1;
    }
    proof {
        if len > n {
            assert(out@ =~= window_spec(values@, n as int));
        } else {
            assert(values@.subrange(0, len as int) =~= values@);
        }
    }
    out
}

/// Truncating to the last `n` samples twice is the same as doing it once.
pub proof fn lemma_window_idempotent(s: Seq<i64>, n: int)
    requires
        n >= 0,
    ensures
        window_spec(window_spec(s, n), n) == window_spec(s, n),
{
    if s.len() > n {
        assert(window_spec(s, n).len() == n);
    }
}

/// The selected source indices stay inside the series.
proof fn lemma_resample_index_bounds(len: int, target: int, i: int)
    requires
        1 <= target <= len,
        0 <= i < target,
    ensures
        0 <= resample_index(len, target, i) < len,
        i == 0 ==> resample_index(len, target, i) == 0,
{
    vstd::arithmetic::mul::lemma_mul_nonnegative(i, len);
    vstd::arithmetic::div_mod::lemma_div_pos_is_pos(i * len, target);
    assert(i * len < target * len) by (nonlinear_arith)
        requires
            0 <= i < target,
            1 <= len,
    ;
    vstd::arithmetic::div_mod::lemma_multiply_divide_lt(i * len, target, len);
    if i == 0 {
        assert(0 * len == 0) by (nonlinear_arith);
        vstd::arithmetic::div_mod::lemma_div_of0(target);
    }
}

/// Downsampling a series of length `L >= C` to `C` samples yields exactly
/// `C` values, each one an element of the original series, selected at
/// index `floor(i * L / C)`; the selected indices start at 0, never grow past
/// `L - 1`, and never decrease.
pub proof fn lemma_resample_properties(s: Seq<i64>, target: int)
    requires
        1 <= target <= s.len(),
    ensures
        resample_spec(s, target).len() == target,
        forall|i: int|
            0 <= i < target ==> resample_spec(s, target)[i] == s[resample_index(
                s.len() as int,
                target,
                i,
            )],
        resample_index(s.len() as int, target, 0) == 0,
        forall|i: int|
            0 <= i < target ==> 0 <= #[trigger] resample_index(s.len() as int, target, i)
                <= s.len() - 1,
        forall|i: int, j: int|
            0 <= i <= j < target ==> #[trigger] resample_index(s.len() as int, target, i)
                <= #[trigger] resample_index(s.len() as int, target, j),
{
    let len = s.len() as int;
    assert forall|i: int| 0 <= i < target implies 0 <= #[trigger] resample_index(len, target, i)
        <= len - 1 by {
        lemma_resample_index_bounds(len, target, i);
    }
    lemma_resample_index_bounds(len, target, 0);
    assert forall|i: int, j: int| 0 <= i <= j < target implies #[trigger] resample_index(
        len,
        target,
        i,
    ) <= #[trigger] resample_index(len, target, j) by {
        vstd::arithmetic::mul::lemma_mul_inequality(i, j, len);
        vstd::arithmetic::div_mod::lemma_div_is_ordered(i * len, j * len, target);
    }
}

/// Downsample the series to exactly `target` samples by nearest-index
/// selection; a series shorter than `target` is returned unchanged.
pub fn resample(values: &Vec<i64>, target: usize) -> (out: Vec<i64>)
    requires
        1 <= target,
    ensures
        out@ == resample_spec(values@, target as int),
{
    let len = values.len();
    if len < target {
        return keep_last(values, len);
    }
    let mut out: Vec<i64> = Vec::new();
    let mut i: usize = 0;
    while i < target
        invariant
            i <= target,
            1 <= target <= len,
            len == values@.len(),
            out@.len() == i,
            forall|j: int|
                0 <= j < i ==> out@[j] == values@[resample_index(len as int, target as int, j)],
        decreases target - i,
    {
        proof {
            lemma_resample_index_bounds(len as int, target as int, i as int);
            vstd::arithmetic::mul::lemma_mul_upper_bound(
                i as int,
                0xFFFF_FFFF_FFFF_FFFF,
                len as int,
                0xFFFF_FFFF_FFFF_FFFF,
            );
            assert(0xFFFF_FFFF_FFFF_FFFF * 0xFFFF_FFFF_FFFF_FFFF < u128::MAX as int)
                by (nonlinear_arith);
        }
        let idx128: u128 = (i as u128 * len as u128) / (target as u128);
        let idx: usize = idx128 as usize;
        assert(idx as int == resample_index(len as int, target as int, i as int));
        out.push(values[idx]);
        i = i + 1;
    }
    proof {
        assert(out@ =~= resample_spec(values@, target as int));
    }
    out
}

/// Rounded scaling lands in `[0, r-1]`.
pub proof fn lemma_round_ratio_range(p: int, q: int, r: int)
    requires
        1 <= q,
        1 <= r,
        0 <= p <= q * (r - 1),
    ensures
        0 <= round_ratio(p, q) <= r - 1,
{
    vstd::arithmetic::div_mod::lemma_div_pos_is_pos(2 * p + q, 2 * q);
    assert(2 * p + q < (2 * q) * r) by (nonlinear_arith)
        requires
            1 <= q,
            1 <= r,
            p <= q * (r - 1),
    ;
    vstd::arithmetic::div_mod::lemma_multiply_divide_lt(2 * p + q, 2 * q, r);
}

/// Every scaled value lands in `[0, r-1]`.
pub proof fn lemma_scale_value_range(v: int, min: int, max: int, r: int)
    requires
        1 <= r,
        min <= v <= max,
    ensures
        0 <= scale_value(v, min, max, r) <= r - 1,
{
    if max == min {
        vstd::arithmetic::div_mod::lemma_div_pos_is_pos(r - 1, 2);
        vstd::arithmetic::div_mod::lemma_div_is_ordered(r - 1, 2 * (r - 1), 2);
        vstd::arithmetic::div_mod::lemma_div_by_multiple(r - 1, 2);
    } else {
        vstd::arithmetic::mul::lemma_mul_nonnegative(v - min, r - 1);
        vstd::arithmetic::mul::lemma_mul_inequality(v - min, max - min, r - 1);
        lemma_round_ratio_range((v - min) * (r - 1), max - min, r);
    }
}

/// After scaling to the row range `[0, r-1]`, a value equal to the series
/// minimum maps to row 0 and a value equal to the series maximum maps to row
/// `r-1` (the degenerate constant series aside, where every value maps to the
/// middle row).
pub proof fn lemma_scale_endpoints(min: int, max: int, r: int)
    requires
        min < max,
        1 <= r,
    ensures
        scale_value(min, min, max, r) == 0,
        scale_value(max, min, max, r) == r - 1,
{
    let q = max - min;
    assert((min - min) * (r - 1) == 0) by (nonlinear_arith);
    assert(scale_value(min, min, max, r) == (2 * 0 + q) / (2 * q));
    assert(0 <= q < 2 * q);
    vstd::arithmetic::div_mod::lemma_basic_div(q, 2 * q);
    assert(2 * ((max - min) * (r - 1)) + q == (r - 1) * (2 * q) + q) by (nonlinear_arith)
        requires
            q == max - min,
    ;
    vstd::arithmetic::div_mod::lemma_fundamental_div_mod_converse(
        (r - 1) * (2 * q) + q,
        2 * q,
        r - 1,
        q,
    );
}

/// After a non-constant series is scaled to the row range `[0, r-1]`, the
/// elements equal to the series minimum map to 0 and the elements equal to
/// the series maximum map to `r-1`.
pub proof fn lemma_scale_series_endpoints(s: Seq<i64>, r: int)
    requires
        s.len() >= 1,
        seq_min(s) < seq_max(s),
        1 <= r <= 0x1_0000_0000,
    ensures
        forall|i: int|
            0 <= i < s.len() && s[i] == seq_min(s) ==> #[trigger] scale_spec(
                s,
                seq_min(s) as int,
                seq_max(s) as int,
                r,
            )[i] == 0,
        forall|i: int|
            0 <= i < s.len() && s[i] == seq_max(s) ==> #[trigger] scale_spec(
                s,
                seq_min(s) as int,
                seq_max(s) as int,
                r,
            )[i] == r - 1,
{
    let min = seq_min(s) as int;
    let max = seq_max(s) as int;
    lemma_scale_endpoints(min, max, r);
    assert forall|i: int| 0 <= i < s.len() && s[i] == seq_min(s) implies #[trigger] scale_spec(
        s,
        min,
        max,
        r,
    )[i] == 0 by {
        assert(scale_spec(s, min, max, r)[i] == scale_value(s[i] as int, min, max, r) as i64);
    }
    assert forall|i: int| 0 <= i < s.len() && s[i] == seq_max(s) implies #[trigger] scale_spec(
        s,
        min,
        max,
        r,
    )[i] == r - 1 by {
        lemma_scale_value_range(max, min, max, r);
        assert(scale_spec(s, min, max, r)[i] == scale_value(s[i] as int, min, max, r) as i64);
    }
}

/// Scale every sample onto the row range `[0, r-1]`, by [`scale_value`].
pub fn scale(values: &Vec<i64>, min: i64, max: i64, r: u64) -> (out: Vec<i64>)
    requires
        1 <= r <= 0x1_0000_0000,
        min <= max,
        forall|i: int| 0 <= i < values@.len() ==> min <= #[trigger] values@[i] <= max,
    ensures
        out@ == scale_spec(values@, min as int, max as int, r as int),
        forall|i: int| 0 <= i < out@.len() ==> 0 <= #[trigger] out@[i] <= r - 1,
{
    let len = values.len();
    let mut out: Vec<i64> = Vec::new();
    let mut i: usize = 0;
    while i < len
        invariant
            i <= len,
            len == values@.len(),
            1 <= r <= 0x1_0000_0000,
            min <= max,
            forall|j: int| 0 <= j < values@.len() ==> min <= #[trigger] values@[j] <= max,
            out@.len() == i,
            forall|j: int|
                0 <= j < i ==> out@[j] == scale_value(
                    values@[j] as int,
                    min as int,
                    max as int,
                    r as int,
                ) as i64,
            forall|j: int| 0 <= j < i ==> 0 <= #[trigger] out@[j] <= r - 1,
        decreases len - i,
    {
        let v = values[i];
        proof {
            lemma_scale_value_range(v as int, min as int, max as int, r as int);
        }
        let s: i64 = if max == min {
            (((r - 1) / 2) as i64)
        } else {
            let d: i128 = (v as i128) - (min as i128);
            let q: i128 = (max as i128) - (min as i128);
            proof {
                vstd::arithmetic::mul::lemma_mul_nonnegative(d as int, r as int - 1);
                vstd::arithmetic::mul::lemma_mul_inequality(d as int, q as int, r as int - 1);
                vstd::arithmetic::mul::lemma_mul_upper_bound(
                    q as int,
                    0x1_0000_0000_0000_0000,
                    r as int - 1,
                    0x1_0000_0000,
                );
                assert(2 * (d as int) * (r as int - 1) == 2 * ((d as int) * (r as int - 1)))
                    by (nonlinear_arith);
            }
            let num: i128 = 2 * d * ((r - 1) as i128) + q;
            let den: i128 = 2 * q;
            let res: i128 = num / den;
            assert(res == round_ratio((v - min) as int * (r - 1) as int, (max - min) as int));
            res as i64
        };
        out.push(s);
        i = i + 1;
    }
    proof {
        assert(out@ =~= scale_spec(values@, min as int, max as int, r as int));
    }
    out
}

/// The smallest value of a non-empty series.
pub fn series_min(values: &Vec<i64>) -> (m: i64)
    requires
        values@.len() >= 1,
    ensures
        m == seq_min(values@),
{
    let len = values.len();
    let mut m: i64 = values[0];
    let mut i: usize = 1;
    while i < len
        invariant
            1 <= i <= len,
            len == values@.len(),
            m == seq_min(values@.take(i as int)),
        decreases len - i,
    {
        let v = values[i];
        proof {
            assert(values@.take(i as int + 1).drop_last() =~= values@.take(i as int));
            assert(values@.take(i as int + 1).last() == values@[i as int]);
        }
        if v < m {
            m = v;
        }
        i = i + 1;
    }
    proof {
        assert(values@.take(len as int) =~= values@);
    }
    m
}

/// The largest value of a non-empty series.
pub fn series_max(values: &Vec<i64>) -> (m: i64)
    requires
        values@.len() >= 1,
    ensures
        m == seq_max(values@),
{
    let len = values.len();
    let mut m: i64 = values[0];
    let mut i: usize = 1;
    while i < len
        invariant
            1 <= i <= len,
            len == values@.len(),
            m == seq_max(values@.take(i as int)),
        decreases len - i,
    {
        let v = values[i];
        proof {
            assert(values@.take(i as int + 1).drop_last() =~= values@.take(i as int));
            assert(values@.take(i as int + 1).last() == values@[i as int]);
        }
        if v > m {
            m = v;
        }
        i = i + 1;
    }
    proof {
        assert(values@.take(len as int) =~= values@);
    }
    m
}

} // verus!
