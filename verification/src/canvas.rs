//! Braille sub-pixel bit layout and dash patterns.

use vstd::prelude::*;

verus! {

/// Braille bit positions: `PIXEL_MAP[y % 4][x % 2]` gives the bit mask for a sub-pixel.
pub const PIXEL_MAP: [[u8; 2]; 4] = [
    [0x01, 0x08],
    [0x02, 0x10],
    [0x04, 0x20],
    [0x40, 0x80],
];

/// The Braille bit of the sub-pixel at row `r` (0..4) and column `c` (0..2) of a cell.
pub open spec fn pixel_bit(r: int, c: int) -> u8 {
    if r == 0 {
        if c == 0 { 0x01u8 } else { 0x08u8 }
    } else if r == 1 {
        if c == 0 { 0x02u8 } else { 0x10u8 }
    } else if r == 2 {
        if c == 0 { 0x04u8 } else { 0x20u8 }
    } else {
        if c == 0 { 0x40u8 } else { 0x80u8 }
    }
}

/// Reads the Braille bit of a sub-pixel position within its cell.
pub fn pixel_mask(row: usize, col: usize) -> (b: u8)
    requires
        row < 4,
        col < 2,
    ensures
        b == pixel_bit(row as int, col as int),
{
    PIXEL_MAP[row][col]
}

const SOLID_SEGMENTS: [usize; 1] = [1];
const DASH_SEGMENTS: [usize; 2] = [6, 4];
const DOT_SEGMENTS: [usize; 2] = [2, 4];
const DOT_DASH_SEGMENTS: [usize; 4] = [2, 4, 6, 4];
const DOT_DOT_DASH_SEGMENTS: [usize; 6] = [2, 4, 2, 4, 6, 4];
const SMALL_DOT_SEGMENTS: [usize; 2] = [1, 3];

/// A dash pattern defined as alternating on/off pixel counts.
#[derive(Debug, Clone, Copy)]
pub struct DashPattern {
    /// Alternating on/off lengths in pixels. First element is "on".
    pub segments: &'static [usize],
}

/// Sum of a sequence of segment lengths.
pub open spec fn seg_sum(s: Seq<usize>) -> int
    decreases s.len(),
{
    if s.len() == 0 {
        0
    } else {
        seg_sum(s.drop_last()) + s.last()
    }
}

/// Whether position `pos`, measured from the start of segment `i`, falls in an "on"
/// segment: the first segment that contains it decides, even indices being "on".
/// Past the last segment the answer is "on".
pub open spec fn on_from(s: Seq<usize>, i: int, pos: int) -> bool
    decreases s.len() - i,
{
    if i < 0 || i >= s.len() {
        true
    } else if pos < s[i] {
        i % 2 == 0
    } else {
        on_from(s, i + 1, pos - s[i])
    }
}

/// A pattern `is_on` can evaluate: a solid pattern, or one whose period is positive
/// and fits in a `usize`.
pub open spec fn pattern_valid(s: Seq<usize>) -> bool {
    s.len() <= 1 || (0 < seg_sum(s) && seg_sum(s) <= usize::MAX)
}

/// Whether step `step` along a line is drawn under the pattern `s`.
pub open spec fn pattern_on(s: Seq<usize>, step: int) -> bool {
    s.len() <= 1 || on_from(s, 0, step % seg_sum(s))
}

proof fn lemma_seg_sum_nonneg(s: Seq<usize>)
    ensures
        seg_sum(s) >= 0,
    decreases s.len(),
{
    if s.len() > 0 {
        lemma_seg_sum_nonneg(s.drop_last());
    }
}

proof fn lemma_seg_sum_prefix_mono(s: Seq<usize>, i: int, j: int)
    requires
        0 <= i <= j <= s.len(),
    ensures
        seg_sum(s.take(i)) <= seg_sum(s.take(j)),
    decreases j - i,
{
    if i < j {
        lemma_seg_sum_prefix_mono(s, i, j - 1);
        assert(s.take(j).drop_last() =~= s.take(j - 1));
    }
}

/// `on_from` at segment `i` equals `on_from` at a later segment `k`, once `pos` is
/// shifted by the lengths of the segments in between (none of which contains it).
proof fn lemma_on_from_shift(s: Seq<usize>, i: int, k: int, pos: int)
    requires
        0 <= i <= k <= s.len(),
        pos >= seg_sum(s.take(k)) - seg_sum(s.take(i)),
    ensures
        on_from(s, i, pos) == on_from(s, k, pos - (seg_sum(s.take(k)) - seg_sum(s.take(i)))),
    decreases k - i,
{
    if i < k {
        assert(s.take(i + 1).drop_last() =~= s.take(i));
        lemma_seg_sum_prefix_mono(s, i + 1, k);
        lemma_on_from_shift(s, i + 1, k, pos - s[i]);
    }
}

impl DashPattern {
    /// Returns whether a pixel at the given step count along a line should be drawn.
    pub fn is_on(&self, step: usize) -> (on: bool)
        requires
            pattern_valid(self.segments@),
        ensures
            on == pattern_on(self.segments@, step as int),
    {
        let segs = self.segments;
        if segs.len() <= 1 {
            return true;
        }
        let mut total: usize = 0;
        let mut k: usize = 0;
        while k < segs.len()
            invariant
                k <= segs@.len(),
                total == seg_sum(segs@.take(k as int)),
                seg_sum(segs@) <= usize::MAX,
            decreases segs.len() - k,
        {
            proof {
                lemma_seg_sum_prefix_mono(segs@, k + 1, segs@.len() as int);
                assert(segs@.take(segs@.len() as int) =~= segs@);
                assert(segs@.take(k + 1).drop_last() =~= segs@.take(k as int));
            }
            total = total + segs[k];
            k += 1;
        }
        assert(segs@.take(segs@.len() as int) =~= segs@);
        let pos = step % total;
        let mut acc: usize = 0;
        let mut i: usize = 0;
        while i < segs.len()
            invariant
                i <= segs@.len(),
                acc == seg_sum(segs@.take(i as int)),
                acc <= pos,
                pos < total,
                total == seg_sum(segs@),
                total <= usize::MAX,
                pos == step % total,
                segs@.len() > 1,
                segs@ == self.segments@,
                on_from(segs@, 0, pos as int) == on_from(segs@, i as int, pos - acc),
            decreases segs.len() - i,
        {
            proof {
                lemma_seg_sum_prefix_mono(segs@, i + 1, segs@.len() as int);
                assert(segs@.take(segs@.len() as int) =~= segs@);
                assert(segs@.take(i + 1).drop_last() =~= segs@.take(i as int));
            }
            let next = acc + segs[i];
            if pos < next {
                assert(on_from(segs@, i as int, pos - acc) == (i % 2 == 0));
                assert(pattern_on(segs@, step as int) == on_from(segs@, 0, pos as int));
                return i % 2 == 0;
            }
            acc = next;
            proof {
                lemma_on_from_shift(segs@, 0, i + 1, pos as int);
                lemma_on_from_shift(segs@, 0, i as int, pos as int);
                assert(segs@.take(0) =~= Seq::<usize>::empty());
            }
            i += 1;
        }
        proof {
            lemma_seg_sum_nonneg(segs@);
        }
        true
    }
}

/// Solid line (every pixel drawn).
pub fn solid() -> (d: DashPattern)
    ensures
        d.segments@ == seq![1usize],
{
    DashPattern { segments: &SOLID_SEGMENTS }
}

/// Dashed line: 6 on, 4 off.
pub fn dash() -> (d: DashPattern)
    ensures
        d.segments@ == seq![6usize, 4],
{
    DashPattern { segments: &DASH_SEGMENTS }
}

/// Dotted line: 2 on, 4 off.
pub fn dot() -> (d: DashPattern)
    ensures
        d.segments@ == seq![2usize, 4],
{
    DashPattern { segments: &DOT_SEGMENTS }
}

/// Dot-dash line: 2 on, 4 off, 6 on, 4 off.
pub fn dot_dash() -> (d: DashPattern)
    ensures
        d.segments@ == seq![2usize, 4, 6, 4],
{
    DashPattern { segments: &DOT_DASH_SEGMENTS }
}

/// Dot-dot-dash line: 2 on, 4 off, 2 on, 4 off, 6 on, 4 off.
pub fn dot_dot_dash() -> (d: DashPattern)
    ensures
        d.segments@ == seq![2usize, 4, 2, 4, 6, 4],
{
    DashPattern { segments: &DOT_DOT_DASH_SEGMENTS }
}

/// Small dot line: 1 on, 3 off.
pub fn small_dot() -> (d: DashPattern)
    ensures
        d.segments@ == seq![1usize, 3],
{
    DashPattern { segments: &SMALL_DOT_SEGMENTS }
}

/// A solid pattern draws every step.
pub proof fn law_solid_always_on(step: int)
    ensures
        pattern_on(seq![1usize], step),
{
}

/// A dash pattern repeats with its period: step `n` and step `n + period` are drawn alike.
pub proof fn law_pattern_periodic(s: Seq<usize>, step: int)
    requires
        pattern_valid(s),
        step >= 0,
    ensures
        pattern_on(s, step) == pattern_on(s, step + seg_sum(s)),
{
    if s.len() > 1 {
        vstd::arithmetic::div_mod::lemma_mod_add_multiples_vanish(step, seg_sum(s));
    }
}

/// The segment that holds a step decides it: with `p` the step's position within the
/// period, if `p` lies in segment `k` (at or past the sum of the segments before `k`,
/// before the sum through `k`) the step is drawn exactly when `k` is even. Such a `k` is
/// the least index whose running sum exceeds `p`.
pub proof fn law_pattern_segment_decides(s: Seq<usize>, step: int, k: int)
    requires
        pattern_valid(s),
        s.len() >= 2,
        step >= 0,
        0 <= k < s.len(),
        seg_sum(s.take(k)) <= step % seg_sum(s) < seg_sum(s.take(k + 1)),
    ensures
        pattern_on(s, step) == (k % 2 == 0),
{
    let p = step % seg_sum(s);
    assert(s.take(0) =~= Seq::<usize>::empty());
    assert(s.take(k + 1).drop_last() =~= s.take(k));
    lemma_on_from_shift(s, 0, k, p);
}

} // verus!
