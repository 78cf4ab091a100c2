//! Byte-level media helpers: RGBA to RGB pixels, the WAV header of 16 kHz mono
//! PCM, the bounding box of several monitors, and cutting a time range out of
//! a stream of decoded chunks.
use vstd::prelude::*;

verus! {

// ---------------------------------------------------------------------------
// Pixels
// ---------------------------------------------------------------------------

/// The RGB bytes of the first `n` RGBA pixels of `s`: each pixel without its alpha byte.
pub open spec fn rgb_prefix(s: Seq<u8>, n: int) -> Seq<u8>
    decreases n,
{
    if n <= 0 {
        Seq::empty()
    } else {
        rgb_prefix(s, n - 1) + s.subrange(4 * (n - 1), 4 * (n - 1) + 3)
    }
}

proof fn lemma_rgb_prefix_len(s: Seq<u8>, n: int)
    requires
        0 <= n,
        4 * n <= s.len(),
    ensures
        rgb_prefix(s, n).len() == 3 * n,
    decreases n,
{
    if n > 0 {
        lemma_rgb_prefix_len(s, n - 1);
    }
}

/// Pixel `i` of the RGB bytes is pixel `i` of the RGBA bytes without its alpha byte.
pub proof fn lemma_rgb_pixel(s: Seq<u8>, n: int, i: int, k: int)
    requires
        0 <= i < n,
        0 <= k < 3,
        4 * n <= s.len(),
    ensures
        rgb_prefix(s, n)[3 * i + k] == s[4 * i + k],
    decreases n,
{
    lemma_rgb_prefix_len(s, n - 1);
    if i < n - 1 {
        lemma_rgb_pixel(s, n - 1, i, k);
    }
}

/// The RGB bytes of RGBA image data: every fourth (alpha) byte dropped.
pub fn convert_rgba_to_rgb(image: &[u8]) -> (r: Vec<u8>)
    requires
        image@.len() % 4 == 0,
    ensures
        r@ == rgb_prefix(image@, (image@.len() / 4) as int),
        r@.len() == 3 * (image@.len() / 4),
{
    let n = image.len();
    let pixels = n / 4;
    let mut r: Vec<u8> = Vec::new();
    let mut i: usize = 0;
    assert(4 * pixels <= n);
    while i < pixels
        invariant
            n == image@.len(),
            pixels == n / 4,
            4 * pixels <= n,
            i <= pixels,
            r@ == rgb_prefix(image@, i as int),
        decreases pixels - i,
    {
        let b = 4 * i;
        r.push(image[b]);
        r.push(image[b + 1]);
        r.push(image[b + 2]);
        assert(r@ =~= rgb_prefix(image@, i + 1));
        i = i + 1;
    }
    proof {
        lemma_rgb_prefix_len(image@, pixels as int);
    }
    r
}

// ---------------------------------------------------------------------------
// WAV header
// ---------------------------------------------------------------------------

/// `x` as two little-endian bytes.
pub open spec fn le16(x: nat) -> Seq<u8> {
    seq![(x % 256) as u8, ((x / 256) % 256) as u8]
}

/// `x` as four little-endian bytes.
pub open spec fn le32(x: nat) -> Seq<u8> {
    seq![
        (x % 256) as u8,
        ((x / 256) % 256) as u8,
        ((x / 65536) % 256) as u8,
        ((x / 16777216) % 256) as u8,
    ]
}

/// The bytes of an ASCII tag.
pub open spec fn tag(a: u8, b: u8, c: u8, d: u8) -> Seq<u8> {
    seq![a, b, c, d]
}

/// The 44-byte header of a WAV file with `n` samples of 16-bit mono PCM at 16 kHz.
pub open spec fn wav_header_model(n: nat) -> Seq<u8> {
    tag(82, 73, 70, 70) + le32(36 + 2 * n) + tag(87, 65, 86, 69) + tag(102, 109, 116, 32) + le32(16)
        + le16(1) + le16(1) + le32(16000) + le32(32000) + le16(2) + le16(16) + tag(100, 97, 116, 97)
        + le32(2 * n)
}

fn push_le16(out: &mut Vec<u8>, x: u32)
    requires
        x < 65536,
    ensures
        final(out)@ == old(out)@ + le16(x as nat),
{
    out.push((x % 256) as u8);
    out.push(((x / 256) % 256) as u8);
    assert(final(out)@ =~= old(out)@ + le16(x as nat));
}

fn push_le32(out: &mut Vec<u8>, x: u32)
    ensures
        final(out)@ == old(out)@ + le32(x as nat),
{
    out.push((x % 256) as u8);
    out.push(((x / 256) % 256) as u8);
    out.push(((x / 65536) % 256) as u8);
    out.push(((x / 16777216) % 256) as u8);
    assert(final(out)@ =~= old(out)@ + le32(x as nat));
}

fn push_tag(out: &mut Vec<u8>, a: u8, b: u8, c: u8, d: u8)
    ensures
        final(out)@ == old(out)@ + tag(a, b, c, d),
{
    out.push(a);
    out.push(b);
    out.push(c);
    out.push(d);
    assert(final(out)@ =~= old(out)@ + tag(a, b, c, d));
}

/// The WAV header for `num_samples` samples of 16-bit mono PCM at 16 kHz.
pub fn wav_header(num_samples: u32) -> (r: Vec<u8>)
    requires
        36 + 2 * num_samples <= u32::MAX,
    ensures
        r@ == wav_header_model(num_samples as nat),
        r@.len() == 44,
{
    let data_size = num_samples * 2;
    let file_size = 36 + data_size;
    let mut out: Vec<u8> = Vec::new();
    push_tag(&mut out, 82, 73, 70, 70);
    push_le32(&mut out, file_size);
    push_tag(&mut out, 87, 65, 86, 69);
    push_tag(&mut out, 102, 109, 116, 32);
    push_le32(&mut out, 16);
    push_le16(&mut out, 1);
    push_le16(&mut out, 1);
    push_le32(&mut out, 16000);
    push_le32(&mut out, 32000);
    push_le16(&mut out, 2);
    push_le16(&mut out, 16);
    push_tag(&mut out, 100, 97, 116, 97);
    push_le32(&mut out, data_size);
    assert(out@ =~= wav_header_model(num_samples as nat));
    out
}

// ---------------------------------------------------------------------------
// Monitors
// ---------------------------------------------------------------------------

/// A monitor's position and size on the virtual desktop.
#[derive(Clone, Copy, Debug)]
pub struct MonitorRect {
    pub x: i32,
    pub y: i32,
    pub width: u32,
    pub height: u32,
}

/// The smallest rectangle that covers all monitors.
#[derive(Clone, Copy, Debug)]
pub struct BoundingBox {
    pub min_x: i32,
    pub min_y: i32,
    pub max_x: i32,
    pub max_y: i32,
    pub width: u32,
    pub height: u32,
}

/// The monitors fit the coordinate range: every right and bottom edge is an `i32`,
/// and so is the distance between any left edge and any right edge.
pub open spec fn monitors_fit(ms: Seq<MonitorRect>) -> bool {
    &&& forall|i: int|
        0 <= i < ms.len() ==> {
            &&& (#[trigger] ms[i]).width <= i32::MAX
            &&& ms[i].height <= i32::MAX
            &&& ms[i].x + ms[i].width <= i32::MAX
            &&& ms[i].y + ms[i].height <= i32::MAX
        }
    &&& forall|i: int, j: int|
        0 <= i < ms.len() && 0 <= j < ms.len() ==> {
            &&& (#[trigger] ms[i]).x + ms[i].width - (#[trigger] ms[j]).x <= i32::MAX
            &&& ms[i].y + ms[i].height - ms[j].y <= i32::MAX
        }
}

/// `b` is the tight bounding box of `ms`: every monitor lies inside it, each of its
/// edges is some monitor's edge, and its size is the distance between its edges.
pub open spec fn is_bounding_box(ms: Seq<MonitorRect>, b: BoundingBox) -> bool {
    &&& forall|i: int|
        0 <= i < ms.len() ==> {
            &&& b.min_x <= (#[trigger] ms[i]).x
            &&& b.min_y <= ms[i].y
            &&& ms[i].x + ms[i].width <= b.max_x
            &&& ms[i].y + ms[i].height <= b.max_y
        }
    &&& exists|i: int| 0 <= i < ms.len() && (#[trigger] ms[i]).x == b.min_x
    &&& exists|i: int| 0 <= i < ms.len() && (#[trigger] ms[i]).y == b.min_y
    &&& exists|i: int| 0 <= i < ms.len() && (#[trigger] ms[i]).x + ms[i].width == b.max_x
    &&& exists|i: int| 0 <= i < ms.len() && (#[trigger] ms[i]).y + ms[i].height == b.max_y
    &&& b.width == b.max_x - b.min_x
    &&& b.height == b.max_y - b.min_y
}

/// The bounding box of all monitors; `None` when there is none.
pub fn monitor_bounds(monitors: &Vec<MonitorRect>) -> (r: Option<BoundingBox>)
    requires
        monitors_fit(monitors@),
    ensures
        r is None <==> monitors@.len() == 0,
        r matches Some(b) ==> is_bounding_box(monitors@, b),
{
    if monitors.len() == 0 {
        return None;
    }
    let ghost ms = monitors@;
    let mut min_x = i32::MAX;
    let mut min_y = i32::MAX;
    let mut max_x = i32::MIN;
    let mut max_y = i32::MIN;
    let mut ix: usize = 0;
    let mut iy: usize = 0;
    let mut ax: usize = 0;
    let mut ay: usize = 0;
    let mut k: usize = 0;
    while k < monitors.len()
        invariant
            ms == monitors@,
            monitors_fit(ms),
            k <= ms.len(),
            ms.len() > 0,
            ix < ms.len() && iy < ms.len() && ax < ms.len() && ay < ms.len(),
            forall|i: int|
                0 <= i < k ==> {
                    &&& min_x <= (#[trigger] ms[i]).x
                    &&& min_y <= ms[i].y
                    &&& ms[i].x + ms[i].width <= max_x
                    &&& ms[i].y + ms[i].height <= max_y
                },
            k > 0 ==> ms[ix as int].x == min_x,
            k > 0 ==> ms[iy as int].y == min_y,
            k > 0 ==> ms[ax as int].x + ms[ax as int].width == max_x,
            k > 0 ==> ms[ay as int].y + ms[ay as int].height == max_y,
        decreases ms.len() - k,
    {
        let m = monitors[k];
        let right = m.x + (m.width as i32);
        let bottom = m.y + (m.height as i32);
        if k == 0 || m.x < min_x {
            min_x = m.x;
            ix = k;
        }
        if k == 0 || m.y < min_y {
            min_y = m.y;
            iy = k;
        }
        if k == 0 || right > max_x {
            max_x = right;
            ax = k;
        }
        if k == 0 || bottom > max_y {
            max_y = bottom;
            ay = k;
        }
        k = k + 1;
    }
    let b = BoundingBox {
        min_x,
        min_y,
        max_x,
        max_y,
        width: (max_x - min_x) as u32,
        height: (max_y - min_y) as u32,
    };
    assert(ms[ix as int].x == b.min_x);
    assert(ms[iy as int].y == b.min_y);
    assert(ms[ax as int].x + ms[ax as int].width == b.max_x);
    assert(ms[ay as int].y + ms[ay as int].height == b.max_y);
    Some(b)
}

// ---------------------------------------------------------------------------
// Cutting a time range out of decoded chunks
// ---------------------------------------------------------------------------

/// The part of `fed` with positions in `[start, end)`.
pub open spec fn range_of<T>(fed: Seq<T>, start: nat, end: nat) -> Seq<T> {
    let a = if start < fed.len() { start as int } else { fed.len() as int };
    let b = if end < fed.len() { end as int } else { fed.len() as int };
    if a < b {
        fed.subrange(a, b)
    } else {
        Seq::empty()
    }
}

/// Collects the samples at positions `[start, end)` of a stream that arrives in chunks.
pub struct RangeCollector<T> {
    start: usize,
    end: usize,
    total: usize,
    result: Vec<T>,
    fed: Ghost<Seq<T>>,
}

impl<T: Copy> RangeCollector<T> {
    /// The stream seen so far.
    pub closed spec fn fed(&self) -> Seq<T> {
        self.fed@
    }

    /// The first position collected.
    pub closed spec fn start(&self) -> nat {
        self.start as nat
    }

    /// The position after the last one collected.
    pub closed spec fn end(&self) -> nat {
        self.end as nat
    }

    /// The collector's bookkeeping matches what it was fed.
    pub closed spec fn wf(&self) -> bool {
        &&& self.total == self.fed@.len()
        &&& self.result@ == range_of(self.fed@, self.start as nat, self.end as nat)
    }

    /// A collector for positions `[start, end)` that has seen nothing yet.
    pub fn new(start: usize, end: usize) -> (r: Self)
        ensures
            r.wf(),
            r.fed() == Seq::<T>::empty(),
            r.start() == start,
            r.end() == end,
    {
        let r = RangeCollector { start, end, total: 0, result: Vec::new(), fed: Ghost(Seq::empty()) };
        assert(r.result@ =~= range_of(r.fed@, start as nat, end as nat));
        r
    }

    /// Whether everything up to the end of the range has been seen.
    pub fn is_done(&self) -> (r: bool)
        requires
            self.wf(),
        ensures
            r == (self.fed().len() >= self.end()),
    {
        self.total >= self.end
    }

    /// Takes the next chunk of the stream.
    pub fn feed(&mut self, chunk: &[T])
        requires
            old(self).wf(),
            old(self).fed().len() < old(self).end(),
            old(self).fed().len() + chunk@.len() <= usize::MAX,
        ensures
            final(self).wf(),
            final(self).fed() == old(self).fed() + chunk@,
            final(self).start() == old(self).start(),
            final(self).end() == old(self).end(),
    {
        let chunk_start = self.total;
        let chunk_end = self.total + chunk.len();
        let ghost old_fed = self.fed@;
        let ghost old_result = self.result@;
        assert(old_result == range_of(old_fed, self.start as nat, self.end as nat));
        let ghost new_fed = old_fed + chunk@;
        self.total = chunk_end;
        self.fed = Ghost(new_fed);
        if chunk_end <= self.start {
            assert(self.result@ =~= range_of(new_fed, self.start as nat, self.end as nat));
            return;
        }
        let copy_start: usize = if self.start > chunk_start { self.start - chunk_start } else { 0 };
        let from_end = self.end - chunk_start;
        let copy_end: usize = if from_end < chunk.len() { from_end } else { chunk.len() };
        let ghost before = self.result@;
        if copy_start < copy_end {
            let mut k = copy_start;
            let ghost st = self.start;
            let ghost en = self.end;
            while k < copy_end
                invariant
                    copy_start <= k <= copy_end <= chunk@.len(),
                    self.start == st,
                    self.end == en,
                    self.total == chunk_end,
                    self.fed@ == new_fed,
                    self.result@ == before + chunk@.subrange(copy_start as int, k as int),
                decreases copy_end - k,
            {
                self.result.push(chunk[k]);
                assert(before + chunk@.subrange(copy_start as int, k + 1) =~= (before + chunk@.subrange(
                    copy_start as int,
                    k as int,
                )).push(chunk@[k as int]));
                k = k + 1;
            }
            assert(self.result@ =~= range_of(new_fed, self.start as nat, self.end as nat)) by {
                if self.start < chunk_start {
                    assert(before =~= old_fed.subrange(self.start as int, chunk_start as int));
                } else {
                    assert(before =~= Seq::<T>::empty());
                }
            }
        } else {
            assert(self.result@ =~= range_of(new_fed, self.start as nat, self.end as nat));
        }
    }

    /// The collected samples.
    pub fn finish(self) -> (r: Vec<T>)
        requires
            self.wf(),
        ensures
            r@ == range_of(self.fed(), self.start(), self.end()),
    {
        self.result
    }
}

} // verus!
