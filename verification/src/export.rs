//! Splitting transcription segments into sentences and writing them as
//! plain text, SRT or WebVTT.
//!
//! Times are whole milliseconds.
use vstd::prelude::*;
use crate::errors::AppError;
use crate::text::{
    chars_of, extend_chars, is_whitespace, join_seq, lemma_join_step, padded_decimal,
    push_decimal, push_padded, push_str_chars, spec_is_whitespace, lower_case, str_eq,
    string_of, sub_chars, to_lowercase, trim, trim_bounds, decimal, digit_char,
};

verus! {

/// One recognized stretch of speech: `start` and `end` in milliseconds, and its text.
pub struct TranscribeSegment {
    pub start: u64,
    pub end: u64,
    pub text: String,
}

impl View for TranscribeSegment {
    type V = (u64, u64, Seq<char>);

    open spec fn view(&self) -> (u64, u64, Seq<char>) {
        (self.start, self.end, self.text@)
    }
}

/// The views of a list of segments.
pub open spec fn segs_view(v: Seq<TranscribeSegment>) -> Seq<(u64, u64, Seq<char>)> {
    v.map_values(|s: TranscribeSegment| s@)
}

// ---------------------------------------------------------------------------
// Sentence boundaries
// ---------------------------------------------------------------------------

/// Punctuation that ends a sentence (Chinese and Western).
pub open spec fn is_sentence_end_char(c: char) -> bool {
    c == '。' || c == '！' || c == '？' || c == '；' || c == '…' || c == '!' || c == '?' || c == ';'
        || c == '】' || c == '」' || c == '』'
}

/// Closing quotes and brackets that stay with the sentence they follow.
pub open spec fn is_trailing_close_char(c: char) -> bool {
    c == '"' || c == '\'' || c == '”' || c == '’' || c == '）' || c == ')' || c == '〉' || c == '》'
        || c == '】' || c == '」' || c == '』'
}

/// A sentence ends at `t[i]`: sentence-ending punctuation, or a full stop that is
/// last or followed by whitespace (so "3.14" and "e.g" stay whole).
pub open spec fn ends_sentence_at(t: Seq<char>, i: int) -> bool {
    ||| is_sentence_end_char(t[i])
    ||| (t[i] == '.' && (i + 1 >= t.len() || spec_is_whitespace(t[i + 1])))
}

/// Characters taken into a sentence after its end mark.
pub open spec fn absorbable(c: char) -> bool {
    is_sentence_end_char(c) || c == '.' || is_trailing_close_char(c)
}

/// The first index at or after `j` whose character is not absorbable.
pub open spec fn absorb_from(t: Seq<char>, j: int) -> int
    decreases t.len() - j,
{
    if 0 <= j < t.len() && absorbable(t[j]) {
        absorb_from(t, j + 1)
    } else {
        j
    }
}

/// Where the sentence that ends at `t[i]` is cut: after the end mark, further
/// marks and closing brackets, and one whitespace character after a full stop.
pub open spec fn sentence_cut(t: Seq<char>, i: int) -> int {
    let j = absorb_from(t, i + 1);
    if 0 <= j < t.len() && spec_is_whitespace(t[j]) && t[j - 1] == '.' {
        j + 1
    } else {
        j
    }
}

/// Absorbing marks from `j` stops within the text, at or after `j`.
pub proof fn lemma_absorb_bounds(t: Seq<char>, j: int)
    requires
        0 <= j <= t.len(),
    ensures
        j <= absorb_from(t, j) <= t.len(),
    decreases t.len() - j,
{
    if j < t.len() && absorbable(t[j]) {
        lemma_absorb_bounds(t, j + 1);
    }
}

/// The cut after a sentence end at `i` lies after `i` and within the text.
pub proof fn lemma_cut_bounds(t: Seq<char>, i: int)
    requires
        0 <= i < t.len(),
    ensures
        i < sentence_cut(t, i) <= t.len(),
{
    lemma_absorb_bounds(t, i + 1);
}

/// A piece of text as a sentence: trimmed, and dropped when nothing is left.
pub open spec fn keep_piece(p: Seq<char>) -> Seq<Seq<char>> {
    if trim(p).len() > 0 {
        seq![trim(p)]
    } else {
        seq![]
    }
}

/// The sentences of `t[start..]`, scanning for an end mark from `i`.
pub open spec fn sentences_from(t: Seq<char>, start: int, i: int) -> Seq<Seq<char>>
    decreases t.len() - i,
{
    if i < 0 || i >= t.len() {
        keep_piece(t.subrange(start, t.len() as int))
    } else if ends_sentence_at(t, i) {
        proof {
            lemma_cut_bounds(t, i);
        }
        keep_piece(t.subrange(start, sentence_cut(t, i))) + sentences_from(
            t,
            sentence_cut(t, i),
            sentence_cut(t, i),
        )
    } else {
        sentences_from(t, start, i + 1)
    }
}

/// The sentences of `t`.
pub open spec fn sentence_texts(t: Seq<char>) -> Seq<Seq<char>> {
    sentences_from(t, 0, 0)
}

// ---------------------------------------------------------------------------
// Time allocation
// ---------------------------------------------------------------------------

/// Weight of a character in half units: ASCII counts 1, anything wider 2.
pub open spec fn char_weight(c: char) -> nat {
    if (c as u32) < 128 { 1 } else { 2 }
}

/// Weight of a sentence: the sum of its characters' weights.
pub open spec fn text_weight(s: Seq<char>) -> nat
    decreases s.len(),
{
    if s.len() == 0 {
        0
    } else {
        text_weight(s.drop_last()) + char_weight(s.last())
    }
}

/// Sum of the weights of the first `k` sentences.
pub open spec fn cum_weight(ss: Seq<Seq<char>>, k: int) -> nat
    decreases k,
{
    if k <= 0 || ss.len() == 0 {
        0
    } else if k > ss.len() {
        cum_weight(ss, ss.len() as int)
    } else {
        cum_weight(ss, k - 1) + text_weight(ss[k - 1])
    }
}

/// Sum of the lengths of the first `k` sentences.
pub open spec fn cum_len(ss: Seq<Seq<char>>, k: int) -> nat
    decreases k,
{
    if k <= 0 || ss.len() == 0 {
        0
    } else if k > ss.len() {
        cum_len(ss, ss.len() as int)
    } else {
        cum_len(ss, k - 1) + ss[k - 1].len()
    }
}

/// The length of a segment; zero when it ends before it starts.
pub open spec fn span(start: u64, end: u64) -> nat {
    if end >= start { (end - start) as nat } else { 0 }
}

/// The time at which sentence `k` of `ss` starts, when a segment from `start`
/// to `end` is shared among its sentences in proportion to their weights.
pub open spec fn boundary(start: u64, end: u64, ss: Seq<Seq<char>>, k: int) -> u64 {
    (start + span(start, end) * cum_weight(ss, k) / cum_weight(ss, ss.len() as int)) as u64
}

/// One segment split into sentence segments.
///
/// The text is trimmed; empty text gives no segment. Text with at most one
/// sentence stays one segment with the original times. Otherwise each sentence
/// gets its own stretch of time, in proportion to its weight; the stretches follow
/// one another, the first starts at `start` and the last ends at `end`.
pub open spec fn split_segment_model(start: u64, end: u64, text: Seq<char>) -> Seq<(u64, u64, Seq<char>)> {
    let t = trim(text);
    let ss = sentence_texts(t);
    if t.len() == 0 {
        seq![]
    } else if ss.len() <= 1 {
        seq![(start, end, t)]
    } else {
        Seq::new(
            ss.len(),
            |k: int|
                (
                    boundary(start, end, ss, k),
                    if k == ss.len() - 1 { end } else { boundary(start, end, ss, k + 1) },
                    ss[k],
                ),
        )
    }
}

/// All segments split into sentence segments, in order.
pub open spec fn split_all_model(segs: Seq<(u64, u64, Seq<char>)>) -> Seq<(u64, u64, Seq<char>)>
    decreases segs.len(),
{
    if segs.len() == 0 {
        seq![]
    } else {
        split_all_model(segs.drop_last()) + split_segment_model(
            segs.last().0,
            segs.last().1,
            segs.last().2,
        )
    }
}

// ---------------------------------------------------------------------------
// Executable splitting
// ---------------------------------------------------------------------------

fn is_sentence_end_mark(c: char) -> (r: bool)
    ensures
        r == is_sentence_end_char(c),
{
    c == '。' || c == '！' || c == '？' || c == '；' || c == '…' || c == '!' || c == '?' || c == ';'
        || c == '】' || c == '」' || c == '』'
}

fn is_trailing_close(c: char) -> (r: bool)
    ensures
        r == is_trailing_close_char(c),
{
    c == '"' || c == '\'' || c == '”' || c == '’' || c == '）' || c == ')' || c == '〉' || c == '》'
        || c == '】' || c == '」' || c == '』'
}

/// Whether a sentence ends at `chars[idx]`.
fn is_sentence_end(chars: &Vec<char>, idx: usize) -> (r: bool)
    requires
        idx < chars.len(),
    ensures
        r == ends_sentence_at(chars@, idx as int),
{
    let c = chars[idx];
    if is_sentence_end_mark(c) {
        return true;
    }
    if c == '.' {
        return idx + 1 >= chars.len() || is_whitespace(chars[idx + 1]);
    }
    false
}

/// The views of a list of character vectors.
pub open spec fn chars_view(v: Seq<Vec<char>>) -> Seq<Seq<char>> {
    v.map_values(|c: Vec<char>| c@)
}

/// Appends `keep_piece(t[a..b])` to `out`.
fn push_piece(out: &mut Vec<Vec<char>>, t: &Vec<char>, a: usize, b: usize)
    requires
        a <= b <= t.len(),
        cum_len(chars_view(old(out)@), old(out)@.len() as int) <= a,
        forall|k: int| 0 <= k < old(out)@.len() ==> old(out)@[k]@.len() > 0,
    ensures
        forall|k: int| 0 <= k < final(out)@.len() ==> final(out)@[k]@.len() > 0,
        chars_view(final(out)@) == chars_view(old(out)@) + keep_piece(t@.subrange(a as int, b as int)),
        cum_len(chars_view(final(out)@), final(out)@.len() as int) <= b,
{
    let (lo, hi) = trim_bounds(t, a, b);
    let ghost before = chars_view(out@);
    if lo < hi {
        let piece = sub_chars(t, lo, hi);
        out.push(piece);
        assert(chars_view(out@) =~= before.push(piece@));
        assert(keep_piece(t@.subrange(a as int, b as int)) =~= seq![piece@]);
        assert(chars_view(out@) =~= before + keep_piece(t@.subrange(a as int, b as int)));
        assert(cum_len(chars_view(out@), out@.len() as int) == cum_len(before, before.len() as int) + piece@.len()) by {
            lemma_cum_len_push(before, piece@);
        }
    } else {
        assert(keep_piece(t@.subrange(a as int, b as int)) =~= Seq::<Seq<char>>::empty());
        assert(chars_view(out@) =~= before + keep_piece(t@.subrange(a as int, b as int)));
    }
}

proof fn lemma_cum_len_prefix(ss: Seq<Seq<char>>, x: Seq<char>, k: int)
    requires
        0 <= k <= ss.len(),
    ensures
        cum_len(ss.push(x), k) == cum_len(ss, k),
    decreases k,
{
    if k > 0 {
        lemma_cum_len_prefix(ss, x, k - 1);
        assert(ss.push(x)[k - 1] == ss[k - 1]);
    }
}

proof fn lemma_cum_len_push(ss: Seq<Seq<char>>, x: Seq<char>)
    ensures
        cum_len(ss.push(x), ss.len() + 1int) == cum_len(ss, ss.len() as int) + x.len(),
{
    lemma_cum_len_prefix(ss, x, ss.len() as int);
    assert(ss.push(x)[ss.len() as int] == x);
}

/// The sentences of `t`, each trimmed and non-empty, in order.
fn split_sentences(t: &Vec<char>) -> (r: Vec<Vec<char>>)
    ensures
        chars_view(r@) == sentence_texts(t@),
        cum_len(chars_view(r@), r@.len() as int) <= t@.len(),
        forall|k: int| 0 <= k < r@.len() ==> r@[k]@.len() > 0,
{
    let n = t.len();
    let mut out: Vec<Vec<char>> = Vec::new();
    let mut seg_start: usize = 0;
    let mut i: usize = 0;
    assert(chars_view(out@) =~= Seq::<Seq<char>>::empty());
    while i < n
        invariant
            n == t.len(),
            seg_start <= i <= n,
            chars_view(out@) + sentences_from(t@, seg_start as int, i as int) == sentence_texts(t@),
            cum_len(chars_view(out@), out@.len() as int) <= seg_start,
            forall|k: int| 0 <= k < out@.len() ==> out@[k]@.len() > 0,
        decreases n - i,
    {
        if is_sentence_end(t, i) {
            let mut j = i + 1;
            proof {
                lemma_absorb_bounds(t@, i + 1);
            }
            while j < n && (is_sentence_end_mark(t[j]) || t[j] == '.' || is_trailing_close(t[j]))
                invariant
                    n == t.len(),
                    i + 1 <= j <= n,
                    absorb_from(t@, i + 1) == absorb_from(t@, j as int),
                decreases n - j,
            {
                j = j + 1;
            }
            assert(absorb_from(t@, j as int) == j);
            if j < n && is_whitespace(t[j]) && t[j - 1] == '.' {
                j = j + 1;
            }
            assert(j == sentence_cut(t@, i as int));
            let ghost prev = chars_view(out@);
            push_piece(&mut out, t, seg_start, j);
            assert(sentences_from(t@, seg_start as int, i as int) == keep_piece(
                t@.subrange(seg_start as int, j as int),
            ) + sentences_from(t@, j as int, j as int));
            assert(chars_view(out@) + sentences_from(t@, j as int, j as int) =~= prev
                + sentences_from(t@, seg_start as int, i as int));
            seg_start = j;
            i = j;
        } else {
            i = i + 1;
        }
    }
    let ghost prev = chars_view(out@);
    push_piece(&mut out, t, seg_start, n);
    assert(chars_view(out@) =~= prev + sentences_from(t@, seg_start as int, n as int));
    out
}

proof fn lemma_text_weight_bounds(s: Seq<char>)
    ensures
        s.len() <= text_weight(s) <= 2 * s.len(),
    decreases s.len(),
{
    if s.len() > 0 {
        lemma_text_weight_bounds(s.drop_last());
    }
}

proof fn lemma_cum_bounds(ss: Seq<Seq<char>>, k: int)
    requires
        0 <= k <= ss.len(),
    ensures
        cum_weight(ss, k) <= 2 * cum_len(ss, k),
        cum_len(ss, k) <= cum_len(ss, ss.len() as int),
        cum_weight(ss, k) <= cum_weight(ss, ss.len() as int),
    decreases ss.len() - k,
{
    if k > 0 {
        lemma_cum_weight_le_len(ss, k);
    }
    if k < ss.len() {
        lemma_cum_bounds(ss, k + 1);
    }
}

proof fn lemma_cum_weight_le_len(ss: Seq<Seq<char>>, k: int)
    requires
        0 <= k <= ss.len(),
    ensures
        cum_weight(ss, k) <= 2 * cum_len(ss, k),
    decreases k,
{
    if k > 0 {
        lemma_cum_weight_le_len(ss, k - 1);
        lemma_text_weight_bounds(ss[k - 1]);
    }
}

proof fn lemma_share_le(span: nat, part: nat, whole: nat)
    requires
        part <= whole,
        whole > 0,
    ensures
        span * part / whole <= span,
{
    assert(span * part <= span * whole) by (nonlinear_arith)
        requires
            part <= whole,
    ;
    assert(span * part / whole <= span * whole / whole) by (nonlinear_arith)
        requires
            span * part <= span * whole,
            whole > 0,
    ;
    assert(span * whole / whole == span) by (nonlinear_arith)
        requires
            whole > 0,
    ;
}

/// The weight of a sentence in half units.
fn sentence_weight(s: &Vec<char>) -> (w: u64)
    requires
        s@.len() <= usize::MAX / 2,
    ensures
        w == text_weight(s@),
{
    let mut w: u64 = 0;
    let mut k: usize = 0;
    while k < s.len()
        invariant
            k <= s.len() <= usize::MAX / 2,
            w == text_weight(s@.take(k as int)),
            w <= 2 * k,
        decreases s.len() - k,
    {
        assert(s@.take(k + 1).drop_last() =~= s@.take(k as int));
        if (s[k] as u32) < 128 {
            w = w + 1;
        } else {
            w = w + 2;
        }
        k = k + 1;
    }
    assert(s@.take(s.len() as int) =~= s@);
    w
}

/// One segment split into sentence segments with proportional times.
fn split_segment_by_sentence(seg: &TranscribeSegment) -> (r: Vec<TranscribeSegment>)
    requires
        seg.text@.len() <= usize::MAX / 2,
    ensures
        segs_view(r@) == split_segment_model(seg.start, seg.end, seg.text@),
{
    let all = chars_of(seg.text.as_str());
    let (lo, hi) = trim_bounds(&all, 0, all.len());
    assert(all@.subrange(0, all.len() as int) =~= all@);
    let t = sub_chars(&all, lo, hi);
    let ghost ss = sentence_texts(t@);
    if t.len() == 0 {
        let r: Vec<TranscribeSegment> = Vec::new();
        assert(segs_view(r@) =~= Seq::<(u64, u64, Seq<char>)>::empty());
        return r;
    }
    let sentences = split_sentences(&t);
    let m = sentences.len();
    if m <= 1 {
        let mut r: Vec<TranscribeSegment> = Vec::new();
        r.push(TranscribeSegment { start: seg.start, end: seg.end, text: string_of(&t) });
        assert(segs_view(r@) =~= seq![(seg.start, seg.end, t@)]);
        return r;
    }
    proof {
        lemma_cum_bounds(ss, ss.len() as int);
    }
    let mut total: u64 = 0;
    let mut weights: Vec<u64> = Vec::new();
    let mut k: usize = 0;
    while k < m
        invariant
            m == sentences@.len(),
            ss == chars_view(sentences@),
            cum_len(ss, m as int) <= t@.len() <= usize::MAX / 2,
            k <= m,
            weights@.len() == k,
            forall|q: int| 0 <= q < k ==> weights@[q] == text_weight(ss[q]),
            total == cum_weight(ss, k as int),
        decreases m - k,
    {
        proof {
            lemma_cum_bounds(ss, k + 1);
        }
        assert(sentences@[k as int]@ == ss[k as int]);
        let w = sentence_weight(&sentences[k]);
        total = total + w;
        weights.push(w);
        k = k + 1;
    }
    proof {
        lemma_text_weight_bounds(ss[0]);
        lemma_cum_bounds(ss, 1);
        assert(ss[0] == sentences@[0]@);
    }
    let dur: u64 = if seg.end >= seg.start { seg.end - seg.start } else { 0 };
    let mut result: Vec<TranscribeSegment> = Vec::new();
    let mut cursor: u64 = seg.start;
    let mut cum: u64 = 0;
    let mut k: usize = 0;
    let ghost model = split_segment_model(seg.start, seg.end, seg.text@);
    assert(total > 0);
    assert(cum_weight(ss, 0) == 0);
    assert((dur as nat) * 0 / (total as nat) == 0) by (nonlinear_arith)
        requires total > 0;
    assert(cursor == boundary(seg.start, seg.end, ss, 0));
    while k < m
        invariant
            m == sentences@.len(),
            m >= 2,
            ss == chars_view(sentences@),
            ss == sentence_texts(t@),
            t@ == trim(seg.text@),
            t@.len() > 0,
            model == split_segment_model(seg.start, seg.end, seg.text@),
            weights@.len() == m,
            forall|q: int| 0 <= q < m ==> weights@[q] == text_weight(ss[q]),
            total == cum_weight(ss, m as int),
            total > 0,
            dur == span(seg.start, seg.end),
            k <= m,
            cum == cum_weight(ss, k as int),
            k < m ==> cursor == boundary(seg.start, seg.end, ss, k as int),
            segs_view(result@) == model.take(k as int),
        decreases m - k,
    {
        proof {
            lemma_cum_bounds(ss, k + 1);
        }
        cum = cum + weights[k];
        let e: u64 = if k == m - 1 {
            seg.end
        } else {
            proof {
                lemma_share_le(dur as nat, cum as nat, total as nat);
                assert((dur as nat) * (cum as nat) <= (u64::MAX as nat) * (u64::MAX as nat)) by (nonlinear_arith)
                    requires dur <= u64::MAX, cum <= u64::MAX;
            }
            let q: u128 = (dur as u128) * (cum as u128) / (total as u128);
            seg.start + q as u64
        };
        let piece = TranscribeSegment { start: cursor, end: e, text: string_of(&sentences[k]) };
        let ghost prev = segs_view(result@);
        result.push(piece);
        assert(segs_view(result@) =~= prev.push(piece@));
        assert(sentences@[k as int]@ == ss[k as int]);
        assert(model[k as int] == piece@);
        assert(model.take(k as int).push(model[k as int]) =~= model.take(k + 1));
        cursor = e;
        k = k + 1;
    }
    assert(model.take(m as int) =~= model);
    result
}

/// All segments split into sentence segments, in order.
pub fn split_into_sentences(segments: &[TranscribeSegment]) -> (r: Vec<TranscribeSegment>)
    requires
        forall|i: int| 0 <= i < segments@.len() ==> segments@[i].text@.len() <= usize::MAX / 2,
    ensures
        segs_view(r@) == split_all_model(segs_view(segments@)),
{
    let mut r: Vec<TranscribeSegment> = Vec::new();
    let mut i: usize = 0;
    while i < segments.len()
        invariant
            i <= segments@.len(),
            forall|q: int| 0 <= q < segments@.len() ==> segments@[q].text@.len() <= usize::MAX / 2,
            segs_view(r@) == split_all_model(segs_view(segments@.take(i as int))),
        decreases segments.len() - i,
    {
        let parts = split_segment_by_sentence(&segments[i]);
        let ghost prev = segs_view(r@);
        let mut k: usize = 0;
        while k < parts.len()
            invariant
                k <= parts@.len(),
                segs_view(r@) == prev + segs_view(parts@).take(k as int),
            decreases parts.len() - k,
        {
            let p = &parts[k];
            let copy = TranscribeSegment { start: p.start, end: p.end, text: p.text.clone() };
            let ghost before = segs_view(r@);
            r.push(copy);
            assert(segs_view(r@) =~= before.push(copy@));
            assert(segs_view(parts@).take(k as int).push(segs_view(parts@)[k as int]) =~= segs_view(parts@).take(k + 1));
            k = k + 1;
        }
        assert(segs_view(parts@).take(parts@.len() as int) =~= segs_view(parts@));
        assert(segs_view(segments@.take(i + 1)).drop_last() =~= segs_view(segments@.take(i as int)));
        assert(segs_view(segments@.take(i + 1)).last() == segments@[i as int]@);
        i = i + 1;
    }
    assert(segments@.take(segments@.len() as int) =~= segments@);
    r
}

// ---------------------------------------------------------------------------
// Laws of sentence splitting
// ---------------------------------------------------------------------------

proof fn lemma_sentences_nonempty(t: Seq<char>, start: int, i: int)
    requires
        0 <= start <= t.len(),
        start <= i,
    ensures
        forall|k: int| 0 <= k < sentences_from(t, start, i).len() ==> #[trigger] sentences_from(t, start, i)[k].len() > 0,
    decreases t.len() - i,
{
    if i < 0 || i >= t.len() {
        let a = keep_piece(t.subrange(start, t.len() as int));
        assert(sentences_from(t, start, i) == a);
        assert forall|k: int| 0 <= k < a.len() implies #[trigger] a[k].len() > 0 by {
            assert(a[k] == trim(t.subrange(start, t.len() as int)));
        }
    } else if ends_sentence_at(t, i) {
        lemma_cut_bounds(t, i);
        let j = sentence_cut(t, i);
        lemma_sentences_nonempty(t, j, j);
        let a = keep_piece(t.subrange(start, j));
        let b = sentences_from(t, j, j);
        assert(sentences_from(t, start, i) == a + b);
        assert forall|k: int| 0 <= k < a.len() implies #[trigger] a[k].len() > 0 by {
            assert(a[k] == trim(t.subrange(start, j)));
        }
        assert forall|k: int| 0 <= k < (a + b).len() implies #[trigger] (a + b)[k].len() > 0 by {
            if k >= a.len() {
                assert((a + b)[k] == b[k - a.len()]);
            }
        }
    } else {
        lemma_sentences_nonempty(t, start, i + 1);
        assert(sentences_from(t, start, i) == sentences_from(t, start, i + 1));
    }
}

proof fn lemma_cum_weight_monotone(ss: Seq<Seq<char>>, a: int, b: int)
    requires
        0 <= a <= b <= ss.len(),
    ensures
        cum_weight(ss, a) <= cum_weight(ss, b),
    decreases b - a,
{
    if a < b {
        lemma_cum_weight_monotone(ss, a, b - 1);
    }
}

/// Splitting a segment into sentences keeps its time range whole: the first
/// sentence starts where the segment starts, the last ends where it ends, each
/// sentence starts where the one before it ends, and no sentence text is empty.
pub proof fn lemma_split_contiguous(start: u64, end: u64, text: Seq<char>)
    ensures
        ({
            let parts = split_segment_model(start, end, text);
            &&& trim(text).len() > 0 ==> parts.len() >= 1
            &&& parts.len() >= 1 ==> parts[0].0 == start && parts.last().1 == end
            &&& forall|k: int| 0 <= k < parts.len() - 1 ==> #[trigger] parts[k].1 == parts[k + 1].0
            &&& forall|k: int| 0 <= k < parts.len() ==> #[trigger] parts[k].2.len() > 0
        }),
{
    let t = trim(text);
    let ss = sentence_texts(t);
    let parts = split_segment_model(start, end, text);
    if t.len() > 0 && ss.len() > 1 {
        lemma_sentences_nonempty(t, 0, 0);
        assert(cum_weight(ss, 0) == 0);
        let w = cum_weight(ss, ss.len() as int);
        lemma_text_weight_bounds(ss[0]);
        lemma_cum_weight_monotone(ss, 1, ss.len() as int);
        assert(cum_weight(ss, 1) == text_weight(ss[0]));
        assert(w > 0);
        assert(span(start, end) * 0 / w == 0) by (nonlinear_arith)
            requires w > 0;
        assert(parts[0].0 == start);
        assert forall|k: int| 0 <= k < parts.len() implies #[trigger] parts[k].2.len() > 0 by {
            assert(parts[k].2 == ss[k]);
        }
    }
}

/// When a segment does not end before it starts, its sentences run forward in
/// time and stay inside the segment.
pub proof fn lemma_split_ordered(start: u64, end: u64, text: Seq<char>)
    requires
        start <= end,
    ensures
        ({
            let parts = split_segment_model(start, end, text);
            forall|k: int| 0 <= k < parts.len() ==> start <= #[trigger] parts[k].0 <= parts[k].1 <= end
        }),
{
    let t = trim(text);
    let ss = sentence_texts(t);
    let parts = split_segment_model(start, end, text);
    if t.len() > 0 && ss.len() > 1 {
        lemma_sentences_nonempty(t, 0, 0);
        let n = ss.len() as int;
        let w = cum_weight(ss, n);
        let d = span(start, end);
        lemma_text_weight_bounds(ss[0]);
        lemma_cum_weight_monotone(ss, 1, n);
        assert(cum_weight(ss, 0) == 0);
        assert(cum_weight(ss, 1) == text_weight(ss[0]));
        assert(w > 0);
        assert forall|k: int| 0 <= k < parts.len() implies start <= #[trigger] parts[k].0 <= parts[k].1 <= end by {
            lemma_cum_weight_monotone(ss, 0, k);
            lemma_cum_weight_monotone(ss, k, k + 1);
            lemma_cum_weight_monotone(ss, k + 1, n);
            let a = cum_weight(ss, k);
            let b = cum_weight(ss, k + 1);
            lemma_share_le(d, b, w);
            lemma_share_le(d, a, w);
            assert(d * a / w <= d * b / w) by (nonlinear_arith)
                requires a <= b, w > 0, d >= 0;
            assert(start + d == end);
        }
    }
}

proof fn lemma_no_end_one_piece(t: Seq<char>, i: int)
    requires
        0 <= i <= t.len(),
        forall|j: int| 0 <= j < t.len() ==> !#[trigger] ends_sentence_at(t, j),
    ensures
        sentences_from(t, 0, i) == keep_piece(t.subrange(0, t.len() as int)),
    decreases t.len() - i,
{
    if i < t.len() {
        lemma_no_end_one_piece(t, i + 1);
    }
}

/// A segment whose text has no sentence end stays one segment, with its times and
/// its trimmed text (and gives nothing when the text is blank).
pub proof fn lemma_split_without_sentence_end(start: u64, end: u64, text: Seq<char>)
    requires
        forall|j: int| 0 <= j < trim(text).len() ==> !#[trigger] ends_sentence_at(trim(text), j),
    ensures
        split_segment_model(start, end, text) == (if trim(text).len() == 0 {
            Seq::<(u64, u64, Seq<char>)>::empty()
        } else {
            seq![(start, end, trim(text))]
        }),
{
    let t = trim(text);
    lemma_no_end_one_piece(t, 0);
}

/// An ASCII letter.
pub open spec fn is_ascii_letter(c: char) -> bool {
    ('a' <= c <= 'z') || ('A' <= c <= 'Z')
}

/// Plain words: ASCII letters and spaces, starting and ending with a letter.
pub open spec fn is_plain_words(s: Seq<char>) -> bool {
    &&& s.len() > 0
    &&& is_ascii_letter(s[0])
    &&& is_ascii_letter(s.last())
    &&& forall|i: int| 0 <= i < s.len() ==> is_ascii_letter(#[trigger] s[i]) || s[i] == ' '
}

proof fn lemma_scan_without_end(t: Seq<char>, start: int, i: int, k: int)
    requires
        0 <= start <= i <= k <= t.len(),
        forall|j: int| i <= j < k ==> !#[trigger] ends_sentence_at(t, j),
    ensures
        sentences_from(t, start, i) == sentences_from(t, start, k),
    decreases k - i,
{
    if i < k {
        lemma_scan_without_end(t, start, i + 1, k);
    }
}

proof fn lemma_words_trimmed(s: Seq<char>)
    requires
        is_plain_words(s),
    ensures
        trim(s) == s,
        trim(seq![' '] + s) == s,
{
    let w = seq![' '] + s;
    assert(w.drop_first() =~= s);
    assert(spec_is_whitespace(' '));
    assert(!spec_is_whitespace(s[0]));
    assert(!spec_is_whitespace(s.last()));
}

proof fn lemma_mark_then_words(a: Seq<char>, c: char, sep: Seq<char>, b: Seq<char>)
    requires
        is_plain_words(a),
        is_plain_words(b),
        sep == Seq::<char>::empty() || sep == seq![' '],
        is_sentence_end_char(c),
        c != '.',
        !spec_is_whitespace(c),
    ensures
        sentence_texts(a.push(c) + sep + b) == seq![a.push(c), b],
{
    let t = a.push(c) + sep + b;
    let n = a.len() as int;
    let m = n + 1 + sep.len();
    assert(t[n] == c);
    assert forall|j: int| 0 <= j < t.len() && j != n implies !#[trigger] ends_sentence_at(t, j) by {
        if j < n {
            assert(t[j] == a[j]);
            assert(is_ascii_letter(a[j]) || a[j] == ' ');
        } else if j < m {
            assert(t[j] == ' ');
            assert(spec_is_whitespace(' '));
        } else {
            assert(t[j] == b[j - m]);
            assert(is_ascii_letter(b[j - m]) || b[j - m] == ' ');
        }
    }
    lemma_scan_without_end(t, 0, 0, n);
    assert(ends_sentence_at(t, n));
    assert(t[n + 1] == (if sep.len() == 0 { b[0] } else { ' ' }));
    assert(!absorbable(t[n + 1]));
    assert(absorb_from(t, n + 1) == n + 1);
    assert(sentence_cut(t, n) == n + 1);
    lemma_scan_without_end(t, n + 1, n + 1, t.len() as int);
    assert(t.subrange(0, n + 1) =~= a.push(c));
    assert(t.subrange(n + 1, t.len() as int) =~= sep + b);
    lemma_words_trimmed(b);
    assert(trim(a.push(c)) == a.push(c)) by {
        assert(a.push(c)[0] == a[0]);
        assert(!spec_is_whitespace(a[0]));
        assert(a.push(c).drop_last() =~= a);
    }
    if sep.len() == 0 {
        assert(sep + b =~= b);
    }
    assert(sentences_from(t, 0, n) == keep_piece(t.subrange(0, n + 1)) + sentences_from(t, n + 1, n + 1));
    assert(sentence_texts(t) =~= seq![a.push(c), b]);
}

/// Each of the sentence-ending marks, Chinese or Western, ends a sentence: words, the
/// mark, then (with or without a space) more words give two sentences, the first
/// keeping the mark; a segment with such a text is split into two segments that
/// share its time, the first starting where it starts and the second ending where it
/// ends.
pub proof fn lemma_end_marks_end_sentences(a: Seq<char>, c: char, b: Seq<char>, start: u64, end: u64)
    requires
        is_plain_words(a),
        is_plain_words(b),
        c == '。' || c == '！' || c == '？' || c == '；' || c == '…' || c == '!' || c == '?' || c == ';'
            || c == '】' || c == '」' || c == '』',
    ensures
        sentence_texts(a.push(c) + seq![' '] + b) == seq![a.push(c), b],
        sentence_texts(a.push(c) + b) == seq![a.push(c), b],
        ({
            let parts = split_segment_model(start, end, a.push(c) + seq![' '] + b);
            &&& parts.len() == 2
            &&& parts[0].2 == a.push(c) && parts[1].2 == b
            &&& parts[0].0 == start && parts[0].1 == parts[1].0 && parts[1].1 == end
        }),
{
    lemma_mark_then_words(a, c, seq![' '], b);
    lemma_mark_then_words(a, c, Seq::<char>::empty(), b);
    assert(a.push(c) + Seq::<char>::empty() =~= a.push(c));
    let t = a.push(c) + seq![' '] + b;
    assert(trim(t) == t) by {
        assert(t[0] == a[0]);
        assert(!spec_is_whitespace(a[0]));
        assert(t.last() == b.last());
        assert(!spec_is_whitespace(b.last()));
    }
    let ss = sentence_texts(t);
    assert(cum_weight(ss, 0) == 0);
    assert(boundary(start, end, ss, 0) == start);
}

// ---------------------------------------------------------------------------
// Output formats
// ---------------------------------------------------------------------------

/// Whole hours in `ms`, saturated to the range of `u32`.
pub open spec fn hours_of(ms: u64) -> nat {
    let h = ms / 3_600_000;
    if h > u32::MAX { u32::MAX as nat } else { h as nat }
}

/// `HH:MM:SS<sep>mmm` for a time in milliseconds.
pub open spec fn clock_text(ms: u64, sep: char) -> Seq<char> {
    padded_decimal(hours_of(ms), 2) + seq![':'] + padded_decimal(((ms % 3_600_000) / 60_000) as nat, 2)
        + seq![':'] + padded_decimal(((ms % 60_000) / 1000) as nat, 2) + seq![sep]
        + padded_decimal((ms % 1000) as nat, 3)
}

/// An SRT timestamp, `HH:MM:SS,mmm`.
pub open spec fn srt_time(ms: u64) -> Seq<char> {
    clock_text(ms, ',')
}

/// A WebVTT timestamp, `HH:MM:SS.mmm`.
pub open spec fn vtt_time(ms: u64) -> Seq<char> {
    clock_text(ms, '.')
}

/// A character with every comma turned into a full stop.
pub open spec fn comma_to_dot(c: char) -> char {
    if c == ',' { '.' } else { c }
}

proof fn lemma_decimal_digits(n: nat)
    ensures
        forall|i: int| 0 <= i < decimal(n).len() ==> '0' <= #[trigger] decimal(n)[i] <= '9',
    decreases n,
{
    let d = digit_char((n % 10) as int);
    assert('0' <= d <= '9');
    if n >= 10 {
        lemma_decimal_digits(n / 10);
        let prev = decimal(n / 10);
        assert(decimal(n) == prev.push(d));
        assert forall|i: int| 0 <= i < decimal(n).len() implies '0' <= #[trigger] decimal(n)[i] <= '9' by {
            if i < prev.len() {
                assert(decimal(n)[i] == prev[i]);
            }
        }
    } else {
        assert('0' <= digit_char(n as int) <= '9');
        assert(decimal(n) == seq![digit_char(n as int)]);
    }
}

proof fn lemma_padded_digits(n: nat, w: nat)
    ensures
        forall|i: int| 0 <= i < padded_decimal(n, w).len() ==> '0' <= #[trigger] padded_decimal(n, w)[i] <= '9',
{
    lemma_decimal_digits(n);
}

/// A WebVTT timestamp is the SRT timestamp of the same time with its comma turned into
/// a full stop: the hours, minutes, seconds and milliseconds are the same.
pub proof fn lemma_vtt_time_is_srt_time(ms: u64)
    ensures
        vtt_time(ms) == srt_time(ms).map_values(|c: char| comma_to_dot(c)),
{
    let h = padded_decimal(hours_of(ms), 2);
    let m = padded_decimal(((ms % 3_600_000) / 60_000) as nat, 2);
    let sec = padded_decimal(((ms % 60_000) / 1000) as nat, 2);
    let milli = padded_decimal((ms % 1000) as nat, 3);
    lemma_padded_digits(hours_of(ms), 2);
    lemma_padded_digits(((ms % 3_600_000) / 60_000) as nat, 2);
    lemma_padded_digits(((ms % 60_000) / 1000) as nat, 2);
    lemma_padded_digits((ms % 1000) as nat, 3);
    let srt = srt_time(ms);
    let vtt = vtt_time(ms);
    assert(srt == h + seq![':'] + m + seq![':'] + sec + seq![','] + milli);
    assert(vtt == h + seq![':'] + m + seq![':'] + sec + seq!['.'] + milli);
    assert forall|i: int| 0 <= i < vtt.len() implies vtt[i] == comma_to_dot(#[trigger] srt[i]) by {
        let a = h.len() as int;
        let b = a + 1 + m.len();
        let c = b + 1 + sec.len();
        if i < a {
            assert(srt[i] == h[i] && vtt[i] == h[i]);
        } else if i == a {
        } else if i < b {
            assert(srt[i] == m[i - a - 1] && vtt[i] == m[i - a - 1]);
        } else if i == b {
        } else if i < c {
            assert(srt[i] == sec[i - b - 1] && vtt[i] == sec[i - b - 1]);
        } else if i == c {
        } else {
            assert(srt[i] == milli[i - c - 1] && vtt[i] == milli[i - c - 1]);
        }
    }
    assert(vtt =~= srt.map_values(|c: char| comma_to_dot(c)));
}

/// Whole seconds in `ms`, saturated to the range of `u32`.
pub open spec fn seconds_of(ms: u64) -> nat {
    let s = ms / 1000;
    if s > u32::MAX { u32::MAX as nat } else { s as nat }
}

/// A plain-text line: `[MM:SS.cc] text` and a line break.
pub open spec fn txt_line(s: (u64, u64, Seq<char>)) -> Seq<char> {
    seq!['['] + padded_decimal(seconds_of(s.0) / 60, 2) + seq![':'] + padded_decimal(
        seconds_of(s.0) % 60,
        2,
    ) + seq!['.'] + padded_decimal(((s.0 % 1000) / 10) as nat, 2) + seq![']', ' '] + s.2 + seq!['\n']
}

/// The plain-text export: one line per segment, an empty line between segments.
pub open spec fn txt_model(segs: Seq<(u64, u64, Seq<char>)>) -> Seq<char> {
    join_seq(Seq::new(segs.len(), |i: int| txt_line(segs[i])), seq!['\n'])
}

/// An SRT block: number, time range, text.
pub open spec fn srt_block(i: int, s: (u64, u64, Seq<char>)) -> Seq<char> {
    decimal((i + 1) as nat) + seq!['\n'] + srt_time(s.0) + " --> "@ + srt_time(s.1) + seq!['\n'] + s.2
        + seq!['\n']
}

/// The SRT export: one numbered block per sentence, separated by a line break.
pub open spec fn srt_model(segs: Seq<(u64, u64, Seq<char>)>) -> Seq<char> {
    let ss = split_all_model(segs);
    join_seq(Seq::new(ss.len(), |i: int| srt_block(i, ss[i])), seq!['\n'])
}

/// A WebVTT cue: time range, text.
pub open spec fn vtt_cue(s: (u64, u64, Seq<char>)) -> Seq<char> {
    vtt_time(s.0) + " --> "@ + vtt_time(s.1) + seq!['\n'] + s.2
}

/// The WebVTT export: the header, then one cue per sentence with an empty line between cues.
pub open spec fn vtt_model(segs: Seq<(u64, u64, Seq<char>)>) -> Seq<char> {
    let ss = split_all_model(segs);
    "WEBVTT\n\n"@ + join_seq(Seq::new(ss.len(), |i: int| vtt_cue(ss[i])), seq!['\n', '\n'])
}

/// What `ExportManager::export` gives for a format name: the export, or the message of
/// the error for an unknown format. The name is compared in lower case.
pub open spec fn export_model(segs: Seq<(u64, u64, Seq<char>)>, format: Seq<char>) -> Result<Seq<char>, Seq<char>> {
    let l = lower_case(format);
    if l == "txt"@ {
        Ok(txt_model(segs))
    } else if l == "srt"@ {
        Ok(srt_model(segs))
    } else if l == "vtt"@ {
        Ok(vtt_model(segs))
    } else {
        Err("不支持的导出格式: "@ + format)
    }
}

/// Texts short enough to weigh: every string holds at most `isize::MAX` bytes.
pub open spec fn weighable(segs: Seq<TranscribeSegment>) -> bool {
    forall|i: int| 0 <= i < segs.len() ==> segs[i].text@.len() <= usize::MAX / 2
}

fn push_clock(out: &mut Vec<char>, ms: u64, sep: char)
    ensures
        final(out)@ == old(out)@ + clock_text(ms, sep),
{
    let ghost start = out@;
    let h = ms / 3_600_000;
    let hours = if h > u32::MAX as u64 { u32::MAX as u64 } else { h };
    push_padded(out, hours, 2);
    out.push(':');
    push_padded(out, (ms % 3_600_000) / 60_000, 2);
    out.push(':');
    push_padded(out, (ms % 60_000) / 1000, 2);
    out.push(sep);
    push_padded(out, ms % 1000, 3);
    assert(out@ =~= start + clock_text(ms, sep));
}

fn push_txt_line(out: &mut Vec<char>, s: &TranscribeSegment)
    ensures
        final(out)@ == old(out)@ + txt_line(s@),
{
    let ghost start = out@;
    let ms = s.start;
    let secs = if ms / 1000 > u32::MAX as u64 { u32::MAX as u64 } else { ms / 1000 };
    out.push('[');
    push_padded(out, secs / 60, 2);
    out.push(':');
    push_padded(out, secs % 60, 2);
    out.push('.');
    push_padded(out, (ms % 1000) / 10, 2);
    out.push(']');
    out.push(' ');
    let t = chars_of(s.text.as_str());
    extend_chars(out, &t);
    out.push('\n');
    assert(out@ =~= start + txt_line(s@));
}

fn push_srt_block(out: &mut Vec<char>, i: usize, s: &TranscribeSegment)
    requires
        i < usize::MAX,
    ensures
        final(out)@ == old(out)@ + srt_block(i as int, s@),
{
    let ghost start = out@;
    push_decimal(out, (i + 1) as u64);
    out.push('\n');
    push_clock(out, s.start, ',');
    push_str_chars(out, " --> ");
    push_clock(out, s.end, ',');
    out.push('\n');
    let t = chars_of(s.text.as_str());
    extend_chars(out, &t);
    out.push('\n');
    assert(out@ =~= start + srt_block(i as int, s@));
}

fn push_vtt_cue(out: &mut Vec<char>, s: &TranscribeSegment)
    ensures
        final(out)@ == old(out)@ + vtt_cue(s@),
{
    let ghost start = out@;
    push_clock(out, s.start, '.');
    push_str_chars(out, " --> ");
    push_clock(out, s.end, '.');
    out.push('\n');
    let t = chars_of(s.text.as_str());
    extend_chars(out, &t);
    assert(out@ =~= start + vtt_cue(s@));
}

/// The cues of the given sentences, separated by empty lines.
fn vtt_cues(sentences: &Vec<TranscribeSegment>) -> (body: Vec<char>)
    ensures
        body@ == join_seq(
            Seq::new(sentences@.len(), |i: int| vtt_cue(segs_view(sentences@)[i])),
            seq!['\n', '\n'],
        ),
{
    let ghost ss = segs_view(sentences@);
    let ghost parts = Seq::new(ss.len(), |i: int| vtt_cue(ss[i]));
    let mut body: Vec<char> = Vec::new();
    let mut i: usize = 0;
    while i < sentences.len()
        invariant
            i <= sentences@.len(),
            segs_view(sentences@) == ss,
            parts == Seq::new(ss.len(), |i: int| vtt_cue(ss[i])),
            body@ == join_seq(parts.take(i as int), seq!['\n', '\n']),
        decreases sentences.len() - i,
    {
        proof {
            lemma_join_step(parts, seq!['\n', '\n'], i as int);
        }
        if i > 0 {
            body.push('\n');
            body.push('\n');
        }
        push_vtt_cue(&mut body, &sentences[i]);
        assert(ss[i as int] == sentences@[i as int]@);
        assert(body@ =~= join_seq(parts.take(i + 1), seq!['\n', '\n']));
        i = i + 1;
    }
    assert(parts.take(sentences@.len() as int) =~= parts);
    body
}

/// Writes transcription results as plain text, SRT or WebVTT.
pub struct ExportManager;

impl ExportManager {
    /// Plain text: each segment as `[MM:SS.cc] text`, segments separated by an empty line.
    pub fn to_txt(segments: &[TranscribeSegment]) -> (r: String)
        ensures
            r@ == txt_model(segs_view(segments@)),
    {
        let ghost segs = segs_view(segments@);
        let ghost parts = Seq::new(segs.len(), |i: int| txt_line(segs[i]));
        let mut out: Vec<char> = Vec::new();
        let mut i: usize = 0;
        while i < segments.len()
            invariant
                i <= segments@.len(),
                segs == segs_view(segments@),
                parts == Seq::new(segs.len(), |i: int| txt_line(segs[i])),
                out@ == join_seq(parts.take(i as int), seq!['\n']),
            decreases segments.len() - i,
        {
            proof {
                lemma_join_step(parts, seq!['\n'], i as int);
            }
            if i > 0 {
                out.push('\n');
            }
            push_txt_line(&mut out, &segments[i]);
            assert(segs[i as int] == segments@[i as int]@);
            assert(out@ =~= join_seq(parts.take(i + 1), seq!['\n']));
            i = i + 1;
        }
        assert(parts.take(segments@.len() as int) =~= parts);
        string_of(&out)
    }

    /// SRT subtitles: one numbered block per sentence.
    pub fn to_srt(segments: &[TranscribeSegment]) -> (r: String)
        requires
            weighable(segments@),
        ensures
            r@ == srt_model(segs_view(segments@)),
    {
        let sentences = split_into_sentences(segments);
        let ghost ss = split_all_model(segs_view(segments@));
        let ghost parts = Seq::new(ss.len(), |i: int| srt_block(i, ss[i]));
        let mut out: Vec<char> = Vec::new();
        let mut i: usize = 0;
        while i < sentences.len()
            invariant
                i <= sentences@.len(),
                segs_view(sentences@) == ss,
                parts == Seq::new(ss.len(), |i: int| srt_block(i, ss[i])),
                out@ == join_seq(parts.take(i as int), seq!['\n']),
            decreases sentences.len() - i,
        {
            proof {
                lemma_join_step(parts, seq!['\n'], i as int);
            }
            if i > 0 {
                out.push('\n');
            }
            push_srt_block(&mut out, i, &sentences[i]);
            assert(ss[i as int] == sentences@[i as int]@);
            assert(out@ =~= join_seq(parts.take(i + 1), seq!['\n']));
            i = i + 1;
        }
        assert(parts.take(sentences@.len() as int) =~= parts);
        string_of(&out)
    }

    /// WebVTT subtitles: the header, then one cue per sentence.
    pub fn to_vtt(segments: &[TranscribeSegment]) -> (r: String)
        requires
            weighable(segments@),
        ensures
            r@ == vtt_model(segs_view(segments@)),
    {
        let sentences = split_into_sentences(segments);
        let body = vtt_cues(&sentences);
        let mut out: Vec<char> = Vec::new();
        push_str_chars(&mut out, "WEBVTT\n\n");
        extend_chars(&mut out, &body);
        string_of(&out)
    }

    /// The export in the named format (`txt`, `srt` or `vtt`, in any case).
    pub fn export(segments: &[TranscribeSegment], format: &str) -> (r: Result<String, AppError>)
        requires
            weighable(segments@),
        ensures
            r is Ok <==> export_model(segs_view(segments@), format@) is Ok,
            r matches Ok(s) ==> export_model(segs_view(segments@), format@) == Ok::<Seq<char>, Seq<char>>(s@),
            r matches Err(e) ==> (e matches AppError::Export(m) && export_model(segs_view(segments@), format@)
                == Err::<Seq<char>, Seq<char>>(m@)),
    {
        let lower = to_lowercase(format);
        if str_eq(lower.as_str(), "txt") {
            Ok(Self::to_txt(segments))
        } else if str_eq(lower.as_str(), "srt") {
            Ok(Self::to_srt(segments))
        } else if str_eq(lower.as_str(), "vtt") {
            Ok(Self::to_vtt(segments))
        } else {
            let mut msg: Vec<char> = Vec::new();
            push_str_chars(&mut msg, "不支持的导出格式: ");
            push_str_chars(&mut msg, format);
            Err(AppError::Export(string_of(&msg)))
        }
    }

    /// An SRT timestamp for a time in milliseconds.
    pub fn format_srt_time(ms: u64) -> (r: String)
        ensures
            r@ == srt_time(ms),
    {
        let mut out: Vec<char> = Vec::new();
        push_clock(&mut out, ms, ',');
        string_of(&out)
    }

    /// A WebVTT timestamp for a time in milliseconds.
    pub fn format_vtt_time(ms: u64) -> (r: String)
        ensures
            r@ == vtt_time(ms),
    {
        let mut out: Vec<char> = Vec::new();
        push_clock(&mut out, ms, '.');
        string_of(&out)
    }
}

} // verus!
