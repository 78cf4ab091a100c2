//! Bookkeeping of the streaming recognition loop: where detected speech starts
//! in the whole stream, when the speech detector is reset during long stretches of
//! music, and which recognized texts are kept.
use vstd::prelude::*;
use crate::text::{chars_of, trimmed};

verus! {

/// Samples fed to the speech detector at a time.
pub const VAD_WINDOW: usize = 512;

/// Samples (at 16 kHz) without detected speech after which audible audio resets the
/// speech detector: two seconds.
pub const STALE_RESET_SAMPLES: usize = 32000;

/// Counters of the samples fed to the speech detector.
pub struct VadTracker {
    total_fed: usize,
    reset_offset: usize,
    samples_since_speech: usize,
}

impl View for VadTracker {
    /// Samples fed in all, samples fed before the last reset, samples fed since speech
    /// was last seen.
    type V = (nat, nat, nat);

    closed spec fn view(&self) -> (nat, nat, nat) {
        (self.total_fed as nat, self.reset_offset as nat, self.samples_since_speech as nat)
    }
}

impl VadTracker {
    /// The counters are consistent: the last reset and the last speech lie within
    /// what was fed.
    pub open spec fn wf(self) -> bool {
        self@.1 <= self@.0 && self@.2 <= self@.0
    }

    /// Nothing fed yet.
    pub fn new() -> (r: Self)
        ensures
            r@ == (0nat, 0nat, 0nat),
            r.wf(),
    {
        VadTracker { total_fed: 0, reset_offset: 0, samples_since_speech: 0 }
    }

    /// Samples fed in all.
    pub fn samples_fed(&self) -> (r: usize)
        ensures
            r == self@.0,
    {
        self.total_fed
    }

    /// Samples fed before the last reset: where the detector's positions start.
    pub fn reset_at(&self) -> (r: usize)
        ensures
            r == self@.1,
    {
        self.reset_offset
    }

    /// One window was fed to the detector.
    pub fn window_fed(&mut self)
        requires
            old(self).wf(),
            old(self)@.0 + VAD_WINDOW <= usize::MAX,
        ensures
            final(self).wf(),
            final(self)@ == (old(self)@.0 + VAD_WINDOW as nat, old(self)@.1, old(self)@.2 + VAD_WINDOW as nat),
    {
        self.total_fed = self.total_fed + VAD_WINDOW;
        self.samples_since_speech = self.samples_since_speech + VAD_WINDOW;
    }

    /// A detected speech segment was taken from the detector.
    pub fn segment_taken(&mut self)
        requires
            old(self).wf(),
        ensures
            final(self).wf(),
            final(self)@ == (old(self)@.0, old(self)@.1, 0nat),
    {
        self.samples_since_speech = 0;
    }

    /// After a window: whether the detector must be reset now. Speech in progress
    /// clears the silence count; otherwise, after two seconds without speech, audible
    /// audio (`loud`) resets the detector, and later segment positions count from here.
    pub fn after_window(&mut self, detected: bool, loud: bool) -> (reset: bool)
        requires
            old(self).wf(),
        ensures
            final(self).wf(),
            reset == (!detected && old(self)@.2 >= STALE_RESET_SAMPLES && loud),
            detected ==> final(self)@ == (old(self)@.0, old(self)@.1, 0nat),
            reset ==> final(self)@ == (old(self)@.0, old(self)@.0, 0nat),
            !detected && !reset ==> final(self)@ == old(self)@,
    {
        if detected {
            self.samples_since_speech = 0;
            false
        } else if self.samples_since_speech >= STALE_RESET_SAMPLES && loud {
            self.reset_offset = self.total_fed;
            self.samples_since_speech = 0;
            true
        } else {
            false
        }
    }

    /// The position in the whole stream of a segment that the detector reports at
    /// `start` (counted since its last reset; negative counts as 0).
    pub fn absolute_start(&self, start: i32) -> (r: usize)
        requires
            self@.1 + i32::MAX <= usize::MAX,
        ensures
            r == self@.1 + if start > 0 { start as nat } else { 0nat },
    {
        let s: usize = if start > 0 { start as usize } else { 0 };
        self.reset_offset + s
    }
}

/// The progress shown while a file is decoded: the share of its samples decoded so
/// far, in whole percent, held at 99 until the recognition completes.
pub open spec fn spec_decode_percent(decoded: u64, total: u64) -> u32 {
    let p: int = (decoded as int) * 100 / (total as int);
    if p > 99 { 99 } else { p as u32 }
}

/// The progress of decoding `decoded` of `total` samples.
pub fn decode_percent(decoded: u64, total: u64) -> (r: u32)
    requires
        total > 0,
    ensures
        r == spec_decode_percent(decoded, total),
        r <= 99,
{
    let p: u128 = (decoded as u128) * 100 / (total as u128);
    if p > 99 { 99 } else { p as u32 }
}

/// A speech segment shorter than a tenth of a second (1600 samples at 16 kHz) is
/// not recognized.
pub fn segment_long_enough(num_samples: usize) -> (r: bool)
    ensures
        r == (num_samples >= 1600),
{
    num_samples >= 1600
}

/// ASCII punctuation.
pub open spec fn is_ascii_punct(c: char) -> bool {
    ('!' <= c <= '/') || (':' <= c <= '@') || ('[' <= c <= '`') || ('{' <= c <= '~')
}

/// ASCII whitespace, as `char::is_ascii_whitespace` defines it (no vertical tab).
pub open spec fn is_ascii_space(c: char) -> bool {
    c == ' ' || c == '\t' || c == '\n' || c == '\x0C' || c == '\r'
}

/// A recognized text is kept when, trimmed, it is not empty and not made only of
/// ASCII punctuation and ASCII whitespace.
pub open spec fn spec_meaningful(t: Seq<char>) -> bool {
    let s = crate::text::trim(t);
    s.len() > 0 && exists|i: int| 0 <= i < s.len() && !is_ascii_punct(s[i]) && !is_ascii_space(s[i])
}

/// Whether a recognized text is kept.
pub fn is_meaningful_text(text: &str) -> (r: bool)
    ensures
        r == spec_meaningful(text@),
{
    let cs = chars_of(text);
    let t = trimmed(&cs);
    if t.len() == 0 {
        return false;
    }
    let mut k: usize = 0;
    while k < t.len()
        invariant
            t@ == crate::text::trim(text@),
            t@.len() > 0,
            k <= t@.len(),
            forall|q: int| 0 <= q < k ==> is_ascii_punct(t@[q]) || is_ascii_space(t@[q]),
        decreases t.len() - k,
    {
        let c = t[k];
        let punct = ('!' <= c && c <= '/') || (':' <= c && c <= '@') || ('[' <= c && c <= '`') || ('{' <= c
            && c <= '~');
        let space = c == ' ' || c == '\t' || c == '\n' || c == '\x0C' || c == '\r';
        if !punct && !space {
            assert(!is_ascii_punct(t@[k as int]) && !is_ascii_space(t@[k as int]));
            return true;
        }
        k = k + 1;
    }
    false
}

// ---------------------------------------------------------------------------
// Gaps between recognized speech
// ---------------------------------------------------------------------------

/// Silence longer than this between recognized segments (three seconds at 16 kHz)
/// is recognized again directly, since the speech detector misses singing over music.
pub const GAP_MIN_SAMPLES: u64 = 48000;

/// Where the first `k` segments reach: the latest end among them, 0 for none.
pub open spec fn reach(segs: Seq<(u64, u64)>, k: int) -> u64
    decreases k,
{
    if k <= 0 {
        0
    } else {
        let r = reach(segs, k - 1);
        if segs[k - 1].1 > r { segs[k - 1].1 } else { r }
    }
}

/// The gaps found before each of the first `k` segments: from where the segments
/// before it reach to where it starts, when that is longer than `GAP_MIN_SAMPLES`.
pub open spec fn gaps_before(segs: Seq<(u64, u64)>, k: int) -> Seq<(u64, u64)>
    decreases k,
{
    if k <= 0 {
        Seq::empty()
    } else {
        let g = gaps_before(segs, k - 1);
        let from = reach(segs, k - 1);
        if segs[k - 1].0 - from > GAP_MIN_SAMPLES { g.push((from, segs[k - 1].0)) } else { g }
    }
}

/// The gaps of a recording of `total` samples with these speech segments (start and
/// end sample, in the order they were recognized): those before each segment, then
/// the stretch after the last one when it is longer than `GAP_MIN_SAMPLES`.
pub open spec fn spec_find_gaps(segs: Seq<(u64, u64)>, total: u64) -> Seq<(u64, u64)> {
    let g = gaps_before(segs, segs.len() as int);
    let from = reach(segs, segs.len() as int);
    if total - from > GAP_MIN_SAMPLES { g.push((from, total)) } else { g }
}

/// The stretches of a recording of `total` samples to recognize again, given the
/// speech segments found in it (start and end sample of each).
pub fn find_gaps(segs: &Vec<(u64, u64)>, total: u64) -> (r: Vec<(u64, u64)>)
    ensures
        r@ == spec_find_gaps(segs@, total),
{
    let mut gaps: Vec<(u64, u64)> = Vec::new();
    let mut prev_end: u64 = 0;
    let mut k: usize = 0;
    while k < segs.len()
        invariant
            k <= segs@.len(),
            prev_end == reach(segs@, k as int),
            gaps@ == gaps_before(segs@, k as int),
        decreases segs.len() - k,
    {
        let (s, e) = segs[k];
        if s > prev_end && s - prev_end > GAP_MIN_SAMPLES {
            gaps.push((prev_end, s));
        }
        if e > prev_end {
            prev_end = e;
        }
        k = k + 1;
    }
    if total > prev_end && total - prev_end > GAP_MIN_SAMPLES {
        gaps.push((prev_end, total));
    }
    gaps
}

proof fn lemma_reach_bounds(segs: Seq<(u64, u64)>, k: int)
    requires
        0 <= k <= segs.len(),
    ensures
        forall|j: int| 0 <= j < k ==> segs[j].1 <= reach(segs, k),
    decreases k,
{
    if k > 0 {
        lemma_reach_bounds(segs, k - 1);
    }
}

proof fn lemma_gaps_before(segs: Seq<(u64, u64)>, k: int)
    requires
        0 <= k <= segs.len(),
        forall|i: int, j: int| 0 <= i < j < segs.len() ==> segs[i].0 <= segs[j].0,
    ensures
        forall|g: int| 0 <= g < gaps_before(segs, k).len() ==> {
            let gap = #[trigger] gaps_before(segs, k)[g];
            &&& gap.1 - gap.0 > GAP_MIN_SAMPLES
            &&& forall|j: int| 0 <= j < segs.len() ==> segs[j].1 <= gap.0 || segs[j].0 >= gap.1
        },
    decreases k,
{
    if k > 0 {
        lemma_gaps_before(segs, k - 1);
        lemma_reach_bounds(segs, k - 1);
        let g = gaps_before(segs, k - 1);
        let from = reach(segs, k - 1);
        if segs[k - 1].0 - from > GAP_MIN_SAMPLES {
            let gap = (from, segs[k - 1].0);
            assert forall|j: int| 0 <= j < segs.len() implies segs[j].1 <= gap.0 || segs[j].0 >= gap.1 by {
                if j >= k - 1 {
                    assert(segs[k - 1].0 <= segs[j].0);
                }
            }
            assert forall|q: int| 0 <= q < g.push(gap).len() implies ({
                let x = #[trigger] g.push(gap)[q];
                &&& x.1 - x.0 > GAP_MIN_SAMPLES
                &&& forall|j: int| 0 <= j < segs.len() ==> segs[j].1 <= x.0 || segs[j].0 >= x.1
            }) by {
                if q < g.len() {
                    assert(g.push(gap)[q] == g[q]);
                }
            }
        }
    }
}

/// The stretches to recognize again are each longer than `GAP_MIN_SAMPLES`, and, when
/// the segments come in the order of their starts, none overlaps a speech segment.
pub proof fn lemma_gaps_clear_of_speech(segs: Seq<(u64, u64)>, total: u64)
    requires
        forall|i: int, j: int| 0 <= i < j < segs.len() ==> segs[i].0 <= segs[j].0,
    ensures
        forall|g: int| 0 <= g < spec_find_gaps(segs, total).len() ==> {
            let gap = #[trigger] spec_find_gaps(segs, total)[g];
            &&& gap.1 - gap.0 > GAP_MIN_SAMPLES
            &&& forall|j: int| 0 <= j < segs.len() ==> segs[j].1 <= gap.0 || segs[j].0 >= gap.1
        },
{
    lemma_gaps_before(segs, segs.len() as int);
    lemma_reach_bounds(segs, segs.len() as int);
}

/// Segment `a` comes before segment `b` when ordered by start, in a stable way: an
/// earlier start first, and of equal starts the one found first.
pub open spec fn starts_before(starts: Seq<u64>, a: int, b: int) -> bool {
    starts[a] < starts[b] || (starts[a] == starts[b] && a < b)
}

/// The order in which to put segments so that their starts rise, keeping segments with
/// equal starts in the order they were found: the indices of `starts`, each once, each
/// before the next in that stable order. These conditions leave one answer.
pub fn start_order(starts: &Vec<u64>) -> (r: Vec<usize>)
    ensures
        r@.len() == starts@.len(),
        forall|i: int| 0 <= i < r@.len() ==> r@[i] < starts@.len(),
        forall|j: usize| j < starts@.len() ==> #[trigger] r@.contains(j),
        forall|i: int, k: int|
            0 <= i < k < r@.len() ==> starts_before(starts@, #[trigger] r@[i] as int, #[trigger] r@[k] as int),
{
    let mut out: Vec<usize> = Vec::new();
    let mut n: usize = 0;
    while n < starts.len()
        invariant
            n <= starts@.len(),
            out@.len() == n,
            forall|i: int| 0 <= i < out@.len() ==> out@[i] < n,
            forall|j: usize| j < n ==> #[trigger] out@.contains(j),
            forall|i: int, k: int|
                0 <= i < k < out@.len() ==> starts_before(starts@, #[trigger] out@[i] as int, #[trigger] out@[k] as int),
        decreases starts.len() - n,
    {
        let key = starts[n];
        let mut p: usize = 0;
        while p < out.len() && starts[out[p]] <= key
            invariant
                p <= out@.len(),
                out@.len() == n,
                n < starts@.len(),
                key == starts@[n as int],
                forall|i: int| 0 <= i < out@.len() ==> out@[i] < n,
                forall|i: int| 0 <= i < p ==> starts@[#[trigger] out@[i] as int] <= key,
            decreases out.len() - p,
        {
            p = p + 1;
        }
        let ghost old_out = out@;
        proof {
            assert forall|k: int| p <= k < old_out.len() implies key < starts@[#[trigger] old_out[k] as int] by {
                if p < k {
                    assert(starts_before(starts@, old_out[p as int] as int, old_out[k] as int));
                }
            }
        }
        out.insert(p, n);
        assert(out@ == old_out.insert(p as int, n));
        assert forall|i: int, k: int|
            0 <= i < k < out@.len() implies starts_before(starts@, #[trigger] out@[i] as int, #[trigger] out@[k] as int) by {
            if k < p {
                assert(out@[i] == old_out[i] && out@[k] == old_out[k]);
            } else if k == p {
                assert(out@[i] == old_out[i]);
            } else if i < p {
                assert(out@[i] == old_out[i] && out@[k] == old_out[k - 1]);
                assert(starts@[old_out[i] as int] <= key);
            } else if i == p {
                assert(out@[k] == old_out[k - 1]);
            } else {
                assert(out@[i] == old_out[i - 1] && out@[k] == old_out[k - 1]);
            }
        }
        assert forall|j: usize| j < n + 1 implies #[trigger] out@.contains(j) by {
            if j < n {
                assert(old_out.contains(j));
                let q = choose|q: int| 0 <= q < old_out.len() && old_out[q] == j;
                if q < p {
                    assert(out@[q] == j);
                } else {
                    assert(out@[q + 1] == j);
                }
            } else {
                assert(out@[p as int] == n);
            }
        }
        assert forall|i: int| 0 <= i < out@.len() implies out@[i] < n + 1 by {
            if i < p {
                assert(out@[i] == old_out[i]);
            } else if i > p {
                assert(out@[i] == old_out[i - 1]);
            }
        }
        n = n + 1;
    }
    out
}

/// An ASCII letter or digit.
pub open spec fn is_ascii_alphanumeric(c: char) -> bool {
    ('0' <= c <= '9') || ('a' <= c <= 'z') || ('A' <= c <= 'Z')
}

/// ASCII punctuation is what `char::is_ascii_punctuation` documents: the printable
/// ASCII characters from `!` to `~` that are neither letters nor digits.
pub proof fn lemma_ascii_punct_is_graphic_non_alphanumeric(c: char)
    ensures
        is_ascii_punct(c) <==> ('!' <= c <= '~' && !is_ascii_alphanumeric(c)),
{
}

/// A recognized text is kept as soon as, trimmed, it holds an ASCII letter or digit or
/// any character beyond ASCII (such as Chinese text).
pub proof fn lemma_letters_digits_are_meaningful(t: Seq<char>, i: int)
    requires
        0 <= i < crate::text::trim(t).len(),
        is_ascii_alphanumeric(crate::text::trim(t)[i]) || (crate::text::trim(t)[i] as u32) >= 128,
    ensures
        spec_meaningful(t),
{
    let s = crate::text::trim(t);
    assert(!is_ascii_punct(s[i]) && !is_ascii_space(s[i]));
}

/// Some gap covers the whole of `a..b`.
pub open spec fn gap_covers(gaps: Seq<(u64, u64)>, a: u64, b: u64) -> bool {
    exists|g: int| 0 <= g < gaps.len() && (#[trigger] gaps[g]).0 <= a && b <= gaps[g].1
}

/// No segment overlaps `a..b`.
pub open spec fn uncovered(segs: Seq<(u64, u64)>, a: u64, b: u64) -> bool {
    forall|j: int| 0 <= j < segs.len() ==> (#[trigger] segs[j]).1 <= a || segs[j].0 >= b
}

proof fn lemma_gap_found(segs: Seq<(u64, u64)>, a: u64, b: u64, k: int)
    requires
        0 <= k <= segs.len(),
        a < b,
        b - a > GAP_MIN_SAMPLES,
        uncovered(segs, a, b),
    ensures
        gap_covers(gaps_before(segs, k), a, b) || reach(segs, k) <= a,
    decreases k,
{
    if k > 0 {
        lemma_gap_found(segs, a, b, k - 1);
        let g = gaps_before(segs, k - 1);
        let from = reach(segs, k - 1);
        if gap_covers(g, a, b) {
            let w = choose|w: int| 0 <= w < g.len() && (#[trigger] g[w]).0 <= a && b <= g[w].1;
            if segs[k - 1].0 - from > GAP_MIN_SAMPLES {
                assert(g.push((from, segs[k - 1].0))[w] == g[w]);
            }
            assert(gaps_before(segs, k)[w] == g[w]);
        } else {
            assert(segs[k - 1].1 <= a || segs[k - 1].0 >= b);
            if segs[k - 1].0 >= b {
                let n = g.len() as int;
                assert(gaps_before(segs, k)[n] == (from, segs[k - 1].0));
            }
        }
    }
}

/// Every stretch of the recording longer than `GAP_MIN_SAMPLES` that no speech segment
/// overlaps lies within one of the gaps found, the stretch before the first segment
/// included, whatever the order of the segments.
pub proof fn lemma_gaps_complete(segs: Seq<(u64, u64)>, total: u64, a: u64, b: u64)
    requires
        a < b <= total,
        b - a > GAP_MIN_SAMPLES,
        uncovered(segs, a, b),
    ensures
        gap_covers(spec_find_gaps(segs, total), a, b),
{
    lemma_gap_found(segs, a, b, segs.len() as int);
    let g = gaps_before(segs, segs.len() as int);
    let from = reach(segs, segs.len() as int);
    if gap_covers(g, a, b) {
        let w = choose|w: int| 0 <= w < g.len() && (#[trigger] g[w]).0 <= a && b <= g[w].1;
        if total - from > GAP_MIN_SAMPLES {
            assert(g.push((from, total))[w] == g[w]);
        }
        assert(spec_find_gaps(segs, total)[w] == g[w]);
    } else {
        let n = g.len() as int;
        assert(spec_find_gaps(segs, total)[n] == (from, total));
    }
}

/// When every segment starts more than `GAP_MIN_SAMPLES` after the start of the
/// recording, the stretch from 0 to the earliest start is recognized again.
pub proof fn lemma_leading_gap(segs: Seq<(u64, u64)>, total: u64, first: u64)
    requires
        first <= total,
        first > GAP_MIN_SAMPLES,
        forall|j: int| 0 <= j < segs.len() ==> (#[trigger] segs[j]).0 >= first,
    ensures
        gap_covers(spec_find_gaps(segs, total), 0, first),
{
    lemma_gaps_complete(segs, total, 0, first);
}

} // verus!
