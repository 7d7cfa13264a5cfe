//! Frame geometry: the size of the accumulation buffer, the horizontal bands
//! that split an image between workers, and pixel offsets.
use vstd::prelude::*;

verus! {

/// Colour channels stored per pixel (red, green, blue).
pub const CHANNELS: usize = 3;

/// Why a frame layout cannot be set up.
#[derive(Debug, Clone, Copy, PartialEq, Eq, Structural)]
pub enum LayoutError {
    /// The image has no columns.
    ZeroWidth,
    /// The image has no rows.
    ZeroHeight,
    /// There is no worker to render a band.
    NoWorkers,
    /// `width * height * 3` samples do not fit in memory addresses.
    TooLarge,
}

/// Number of samples in the accumulation buffer of a `width` x `height` image.
pub open spec fn frame_len(width: nat, height: nat) -> nat {
    width * height * 3
}

/// First row of band `i` when `height` rows are shared by `workers` bands:
/// every band but the last holds `height / workers` rows.
pub open spec fn band_start(height: nat, workers: nat, i: nat) -> nat {
    i * (height / workers)
}

/// One past the last row of band `i`; the last band also takes the rows
/// left over by the division.
pub open spec fn band_end(height: nat, workers: nat, i: nat) -> nat {
    if i + 1 >= workers {
        height
    } else {
        (i + 1) * (height / workers)
    }
}

/// A band starts no later than it ends and ends within the image; the first
/// band starts at row 0 and each band ends where the next one starts.
pub proof fn lemma_band_bounds(height: nat, workers: nat, i: nat)
    requires
        workers > 0,
        i < workers,
    ensures
        band_start(height, workers, i) <= band_end(height, workers, i) <= height,
        i + 1 < workers ==> band_end(height, workers, i) == band_start(height, workers, i + 1),
        band_start(height, workers, 0) == 0,
{
    let base = height / workers;
    assert(workers * base <= height) by {
        vstd::arithmetic::div_mod::lemma_fundamental_div_mod(height as int, workers as int);
    }
    assert(i * base <= (i + 1) * base) by (nonlinear_arith);
    if i + 1 < workers {
        assert((i + 1) * base <= workers * base) by (nonlinear_arith)
            requires
                i + 1 < workers,
        ;
    } else {
        assert(i * base <= workers * base) by (nonlinear_arith)
            requires
                i < workers,
        ;
    }
    assert(0 * base == 0);
}

/// Bands never overlap: an earlier band ends at or before a later one starts.
pub proof fn lemma_bands_ordered(height: nat, workers: nat, j: nat, k: nat)
    requires
        j < k < workers,
    ensures
        band_end(height, workers, j) <= band_start(height, workers, k),
{
    let base = height / workers;
    assert((j + 1) * base <= k * base) by (nonlinear_arith)
        requires
            j + 1 <= k,
    ;
}

/// The band that holds row `y`.
pub open spec fn band_of(height: nat, workers: nat, y: nat) -> nat {
    let base = height / workers;
    if base == 0 || y / base >= workers {
        (workers - 1) as nat
    } else {
        y / base
    }
}

/// Every row of the image lies in exactly one band, so each worker writes a
/// set of pixels that no other worker touches.
pub proof fn lemma_row_in_exactly_one_band(height: nat, workers: nat, y: nat)
    requires
        workers > 0,
        y < height,
    ensures
        band_of(height, workers, y) < workers,
        band_start(height, workers, band_of(height, workers, y)) <= y,
        y < band_end(height, workers, band_of(height, workers, y)),
        forall|j: nat|
            j < workers && band_start(height, workers, j) <= y && y < #[trigger] band_end(
                height,
                workers,
                j,
            ) ==> j == band_of(height, workers, y),
{
    let base = height / workers;
    let b = band_of(height, workers, y);
    if base == 0 {
        assert(b * base == 0) by (nonlinear_arith)
            requires
                base == 0,
        ;
    } else {
        let q = y / base;
        vstd::arithmetic::div_mod::lemma_fundamental_div_mod(y as int, base as int);
        vstd::arithmetic::div_mod::lemma_mod_pos_bound(y as int, base as int);
        let rem = y % base;
        assert(base * q + rem == y);
        assert(rem < base);
        assert(q * base <= y) by (nonlinear_arith)
            requires
                base * q + rem == y,
                rem >= 0,
        ;
        assert(y < (q + 1) * base) by (nonlinear_arith)
            requires
                base * q + rem == y,
                rem < base,
        ;
        if q >= workers {
            assert(b * base <= q * base) by (nonlinear_arith)
                requires
                    b <= q,
            ;
        }
    }
    assert forall|j: nat|
        j < workers && band_start(height, workers, j) <= y && y < #[trigger] band_end(
            height,
            workers,
            j,
        ) implies j == b by {
        if j < b {
            lemma_bands_ordered(height, workers, j, b);
        } else if j > b {
            lemma_bands_ordered(height, workers, b, j);
        }
    }
}

/// Offset of the red sample of pixel `(x, y)` in a row-major RGB buffer.
pub open spec fn pixel_offset(width: nat, x: nat, y: nat) -> nat {
    (y * width + x) * 3
}

/// Buffer offset where the samples of band `i` begin.
pub open spec fn segment_start(width: nat, height: nat, workers: nat, i: nat) -> nat {
    band_start(height, workers, i) * width * 3
}

/// Buffer offset one past the samples of band `i`.
pub open spec fn segment_end(width: nat, height: nat, workers: nat, i: nat) -> nat {
    band_end(height, workers, i) * width * 3
}

/// The buffer cut into the contiguous pieces that the bands own.
pub open spec fn band_segments<T>(width: nat, height: nat, workers: nat, buffer: Seq<T>) -> Seq<
    Seq<T>,
> {
    Seq::new(
        workers,
        |i: int|
            buffer.subrange(
                segment_start(width, height, workers, i as nat) as int,
                segment_end(width, height, workers, i as nat) as int,
            ),
    )
}

/// Segments lie inside the buffer, in order, and each ends where the next
/// begins.
pub proof fn lemma_segment_bounds(width: nat, height: nat, workers: nat, i: nat)
    requires
        workers > 0,
        i < workers,
    ensures
        segment_start(width, height, workers, 0) == 0,
        segment_start(width, height, workers, i) <= segment_end(width, height, workers, i),
        segment_end(width, height, workers, i) <= frame_len(width, height),
        i + 1 < workers ==> segment_end(width, height, workers, i) == segment_start(
            width,
            height,
            workers,
            i + 1,
        ),
        i + 1 == workers ==> segment_end(width, height, workers, i) == frame_len(width, height),
{
    lemma_band_bounds(height, workers, i);
    let s = band_start(height, workers, i);
    let e = band_end(height, workers, i);
    assert(s * width * 3 <= e * width * 3 <= height * width * 3) by (nonlinear_arith)
        requires
            s <= e <= height,
    ;
    assert(height * width * 3 == width * height * 3) by (nonlinear_arith);
    assert(0 * width * 3 == 0);
}

/// The first `k` segments, flattened, are the buffer up to where segment
/// `k - 1` ends.
proof fn lemma_segments_prefix<T>(width: nat, height: nat, workers: nat, buffer: Seq<T>, k: nat)
    requires
        0 < k <= workers,
        buffer.len() == frame_len(width, height),
    ensures
        band_segments(width, height, workers, buffer).subrange(0, k as int).flatten()
            == buffer.subrange(0, segment_end(width, height, workers, (k - 1) as nat) as int),
    decreases k,
{
    let segs = band_segments(width, height, workers, buffer);
    let i = (k - 1) as nat;
    lemma_segment_bounds(width, height, workers, i);
    let st = segment_start(width, height, workers, i) as int;
    let en = segment_end(width, height, workers, i) as int;
    assert(segs.subrange(0, k as int) =~= segs.subrange(0, i as int).push(segs[i as int]));
    segs.subrange(0, i as int).lemma_flatten_push(segs[i as int]);
    if i == 0 {
        assert(segs.subrange(0, 0) =~= Seq::<Seq<T>>::empty());
        assert(buffer.subrange(0, en) =~= Seq::<T>::empty() + buffer.subrange(st, en));
    } else {
        lemma_segments_prefix(width, height, workers, buffer, i);
        lemma_segment_bounds(width, height, workers, (i - 1) as nat);
        assert(buffer.subrange(0, st) + buffer.subrange(st, en) =~= buffer.subrange(0, en));
    }
}

/// Putting the band segments back together, in band order, gives the buffer
/// that was split.
pub proof fn lemma_bands_reassemble<T>(width: nat, height: nat, workers: nat, buffer: Seq<T>)
    requires
        workers > 0,
        buffer.len() == frame_len(width, height),
    ensures
        band_segments(width, height, workers, buffer).flatten() == buffer,
{
    let segs = band_segments(width, height, workers, buffer);
    lemma_segments_prefix(width, height, workers, buffer, workers);
    lemma_segment_bounds(width, height, workers, (workers - 1) as nat);
    assert(segs.subrange(0, workers as int) =~= segs);
    assert(buffer.subrange(0, buffer.len() as int) =~= buffer);
}

/// The piece of band `i` holds that band's pixels: channel `c` of pixel
/// `(x, y)` sits at the band-local offset `pixel_offset - segment_start`.
pub proof fn lemma_band_piece_holds_its_pixels<T>(
    width: nat,
    height: nat,
    workers: nat,
    buffer: Seq<T>,
    i: nat,
    x: nat,
    y: nat,
    c: nat,
)
    requires
        i < workers,
        buffer.len() == frame_len(width, height),
        x < width,
        band_start(height, workers, i) <= y < band_end(height, workers, i),
        c < 3,
    ensures
        segment_start(width, height, workers, i) <= pixel_offset(width, x, y) + c,
        pixel_offset(width, x, y) + c - segment_start(width, height, workers, i) < band_segments(
            width,
            height,
            workers,
            buffer,
        )[i as int].len(),
        band_segments(width, height, workers, buffer)[i as int][pixel_offset(width, x, y) + c
            - segment_start(width, height, workers, i)] == buffer[(pixel_offset(width, x, y)
            + c) as int],
{
    lemma_segment_bounds(width, height, workers, i);
    let s = band_start(height, workers, i);
    let e = band_end(height, workers, i);
    assert(s * width * 3 <= (y * width + x) * 3 + c) by (nonlinear_arith)
        requires
            s <= y,
    ;
    assert((y * width + x) * 3 + c < e * width * 3) by (nonlinear_arith)
        requires
            y < e,
            x < width,
            c < 3,
    ;
}

/// Joins band buffers back into one buffer, in band order.
pub fn join_bands<T>(parts: Vec<Vec<T>>) -> (r: Vec<T>)
    ensures
        r@ == parts@.map_values(|p: Vec<T>| p@).flatten(),
{
    let ghost whole = parts@.map_values(|p: Vec<T>| p@);
    let mut rest = parts;
    let mut r: Vec<T> = Vec::new();
    while rest.len() > 0
        invariant
            r@ + rest@.map_values(|p: Vec<T>| p@).flatten() == whole.flatten(),
        decreases rest@.len(),
    {
        let ghost before = rest@.map_values(|p: Vec<T>| p@);
        let mut piece = rest.remove(0);
        assert(rest@.map_values(|p: Vec<T>| p@) =~= before.drop_first());
        assert(before.first() == piece@);
        let ghost old_r = r@;
        r.append(&mut piece);
        assert(old_r + before.flatten() =~= r@ + before.drop_first().flatten());
    }
    assert(rest@.map_values(|p: Vec<T>| p@) =~= Seq::<Seq<T>>::empty());
    assert(r@ + Seq::<T>::empty() =~= r@);
    r
}

/// A horizontal band of image rows, `start_row..end_row`.
#[derive(Debug, Clone, Copy, PartialEq, Eq, Structural)]
pub struct Band {
    pub start_row: u32,
    pub end_row: u32,
}

/// Relies on `num_cpus::get`: the number of CPUs this process may use, which
/// its documentation says is always at least one.
#[verifier::external_body]
fn available_workers() -> (r: usize)
    ensures
        r >= 1,
{
    num_cpus::get()
}

/// Shape of one rendered frame and the number of bands it is split into.
#[derive(Debug, Clone, Copy)]
pub struct FrameLayout {
    width: u32,
    height: u32,
    workers: usize,
}

impl FrameLayout {
    pub closed spec fn spec_width(&self) -> nat {
        self.width as nat
    }

    pub closed spec fn spec_height(&self) -> nat {
        self.height as nat
    }

    pub closed spec fn spec_workers(&self) -> nat {
        self.workers as nat
    }

    /// Non-empty image, at least one worker, and a buffer that fits in memory.
    pub open spec fn wf(&self) -> bool {
        &&& self.spec_width() > 0
        &&& self.spec_height() > 0
        &&& self.spec_workers() > 0
        &&& frame_len(self.spec_width(), self.spec_height()) <= usize::MAX
    }

    /// A layout for `width` x `height` pixels rendered by `workers` bands.
    pub fn new(width: u32, height: u32, workers: usize) -> (r: Result<FrameLayout, LayoutError>)
        ensures
            width == 0 ==> r == Err::<FrameLayout, LayoutError>(LayoutError::ZeroWidth),
            width > 0 && height == 0 ==> r == Err::<FrameLayout, LayoutError>(
                LayoutError::ZeroHeight,
            ),
            width > 0 && height > 0 && workers == 0 ==> r == Err::<FrameLayout, LayoutError>(
                LayoutError::NoWorkers,
            ),
            width > 0 && height > 0 && workers > 0 && frame_len(width as nat, height as nat)
                > usize::MAX ==> r == Err::<FrameLayout, LayoutError>(LayoutError::TooLarge),
            r is Ok <==> (width > 0 && height > 0 && workers > 0 && frame_len(
                width as nat,
                height as nat,
            ) <= usize::MAX),
            r matches Ok(l) ==> l.wf() && l.spec_width() == width && l.spec_height() == height
                && l.spec_workers() == workers,
    {
        if width == 0 {
            return Err(LayoutError::ZeroWidth);
        }
        if height == 0 {
            return Err(LayoutError::ZeroHeight);
        }
        if workers == 0 {
            return Err(LayoutError::NoWorkers);
        }
        assert(width as u64 * height as u64 <= u64::MAX) by (nonlinear_arith)
            requires
                width <= u32::MAX,
                height <= u32::MAX,
        ;
        let pixels: u64 = width as u64 * height as u64;
        let limit: usize = usize::MAX / CHANNELS;
        if pixels > limit as u64 {
            assert(frame_len(width as nat, height as nat) > usize::MAX) by (nonlinear_arith)
                requires
                    pixels == width * height,
                    pixels > limit,
                    limit == usize::MAX / 3,
            ;
            return Err(LayoutError::TooLarge);
        }
        assert(frame_len(width as nat, height as nat) <= usize::MAX) by (nonlinear_arith)
            requires
                pixels == width * height,
                pixels <= limit,
                limit == usize::MAX / 3,
        ;
        Ok(FrameLayout { width, height, workers })
    }

    /// A layout with one band per CPU that this process may use.
    pub fn for_host(width: u32, height: u32) -> (r: Result<FrameLayout, LayoutError>)
        ensures
            width == 0 ==> r == Err::<FrameLayout, LayoutError>(LayoutError::ZeroWidth),
            width > 0 && height == 0 ==> r == Err::<FrameLayout, LayoutError>(
                LayoutError::ZeroHeight,
            ),
            width > 0 && height > 0 && frame_len(width as nat, height as nat) > usize::MAX ==> r
                == Err::<FrameLayout, LayoutError>(LayoutError::TooLarge),
            r is Ok <==> (width > 0 && height > 0 && frame_len(width as nat, height as nat)
                <= usize::MAX),
            r matches Ok(l) ==> l.wf() && l.spec_width() == width && l.spec_height() == height
                && l.spec_workers() >= 1,
    {
        let workers = available_workers();
        FrameLayout::new(width, height, workers)
    }

    /// Image width in pixels.
    pub fn width(&self) -> (r: u32)
        ensures
            r == self.spec_width(),
    {
        self.width
    }

    /// Image height in pixels.
    pub fn height(&self) -> (r: u32)
        ensures
            r == self.spec_height(),
    {
        self.height
    }

    /// Number of bands, one per worker.
    pub fn workers(&self) -> (r: usize)
        ensures
            r == self.spec_workers(),
    {
        self.workers
    }

    /// Number of samples in the accumulation buffer: three per pixel.
    pub fn buffer_len(&self) -> (r: usize)
        requires
            self.wf(),
        ensures
            r == frame_len(self.spec_width(), self.spec_height()),
    {
        self.width as usize * self.height as usize * CHANNELS
    }

    /// Band `i` of this frame.
    pub fn band(&self, i: usize) -> (r: Band)
        requires
            self.wf(),
            i < self.spec_workers(),
        ensures
            r.start_row == band_start(self.spec_height(), self.spec_workers(), i as nat),
            r.end_row == band_end(self.spec_height(), self.spec_workers(), i as nat),
    {
        proof {
            lemma_band_bounds(self.height as nat, self.workers as nat, i as nat);
        }
        let base: usize = self.height as usize / self.workers;
        let start: usize = i * base;
        let end: usize = if i + 1 >= self.workers {
            self.height as usize
        } else {
            (i + 1) * base
        };
        Band { start_row: start as u32, end_row: end as u32 }
    }

    /// Offset of the red sample of pixel `(x, y)` in the accumulation buffer.
    pub fn pixel_offset(&self, x: u32, y: u32) -> (r: usize)
        requires
            self.wf(),
            x < self.spec_width(),
            y < self.spec_height(),
        ensures
            r == pixel_offset(self.spec_width(), x as nat, y as nat),
            r + 3 <= frame_len(self.spec_width(), self.spec_height()),
    {
        proof {
            let w = self.width as nat;
            let h = self.height as nat;
            assert((y * w + x) * 3 + 3 <= w * h * 3) by (nonlinear_arith)
                requires
                    x < w,
                    y < h,
            ;
        }
        (y as usize * self.width as usize + x as usize) * CHANNELS
    }

    /// Offset of the red sample of pixel `(x, y)` inside the segment of band
    /// `i`, for a pixel of that band.
    pub fn band_offset(&self, i: usize, x: u32, y: u32) -> (r: usize)
        requires
            self.wf(),
            i < self.spec_workers(),
            x < self.spec_width(),
            band_start(self.spec_height(), self.spec_workers(), i as nat) <= y,
            y < band_end(self.spec_height(), self.spec_workers(), i as nat),
        ensures
            segment_start(self.spec_width(), self.spec_height(), self.spec_workers(), i as nat) + r
                == pixel_offset(self.spec_width(), x as nat, y as nat),
            r + 3 <= segment_end(self.spec_width(), self.spec_height(), self.spec_workers(), i as nat)
                - segment_start(self.spec_width(), self.spec_height(), self.spec_workers(), i as nat),
    {
        let band = self.band(i);
        proof {
            lemma_segment_bounds(self.width as nat, self.height as nat, self.workers as nat, i as nat);
            lemma_band_bounds(self.height as nat, self.workers as nat, i as nat);
            let w = self.width as nat;
            let s = band.start_row as nat;
            let e = band.end_row as nat;
            assert(s * w * 3 + ((y - s) * w + x) * 3 == (y * w + x) * 3) by (nonlinear_arith)
                requires
                    s <= y,
            ;
            assert(((y - s) * w + x) * 3 + 3 <= e * w * 3 - s * w * 3) by (nonlinear_arith)
                requires
                    s <= y < e,
                    x < w,
            ;
            assert(((y - s) * w + x) * 3 <= (y * w + x) * 3) by (nonlinear_arith)
                requires
                    s <= y,
            ;
            assert((y * w + x) * 3 + 3 <= w * self.height * 3) by (nonlinear_arith)
                requires
                    x < w,
                    y < self.height,
            ;
        }
        ((y - band.start_row) as usize * self.width as usize + x as usize) * CHANNELS
    }

    /// Cuts the accumulation buffer into one piece per band, so that each
    /// worker owns the samples it writes and nothing else.
    pub fn split_frame<T>(&self, buffer: Vec<T>) -> (parts: Vec<Vec<T>>)
        requires
            self.wf(),
            buffer@.len() == frame_len(self.spec_width(), self.spec_height()),
        ensures
            parts@.len() == self.spec_workers(),
            forall|i: int|
                0 <= i < parts@.len() ==> #[trigger] parts@[i]@ == band_segments(
                    self.spec_width(),
                    self.spec_height(),
                    self.spec_workers(),
                    buffer@,
                )[i],
    {
        let ghost w = self.width as nat;
        let ghost h = self.height as nat;
        let ghost n = self.workers as nat;
        let ghost whole = buffer@;
        let mut rest = buffer;
        let mut parts: Vec<Vec<T>> = Vec::new();
        let mut i: usize = 0;
        proof {
            lemma_segment_bounds(w, h, n, 0);
            assert(whole.subrange(0, whole.len() as int) =~= whole);
        }
        while i < self.workers
            invariant
                self.wf(),
                w == self.spec_width(),
                h == self.spec_height(),
                n == self.spec_workers(),
                whole.len() == frame_len(w, h),
                i <= n,
                parts@.len() == i,
                i < n ==> rest@ == whole.subrange(
                    segment_start(w, h, n, i as nat) as int,
                    whole.len() as int,
                ),
                forall|j: int|
                    0 <= j < i ==> #[trigger] parts@[j]@ == band_segments(w, h, n, whole)[j],
            decreases n - i,
        {
            let band = self.band(i);
            proof {
                lemma_segment_bounds(w, h, n, i as nat);
                lemma_band_bounds(h, n, i as nat);
                let s = band.start_row as nat;
                let e = band.end_row as nat;
                assert((e - s) * w * 3 == e * w * 3 - s * w * 3) by (nonlinear_arith)
                    requires
                        s <= e,
                ;
            }
            let len: usize = (band.end_row - band.start_row) as usize * self.width as usize
                * CHANNELS;
            let mut piece = rest;
            let tail = piece.split_off(len);
            parts.push(piece);
            rest = tail;
            i = i + 1;
        }
        parts
    }

    /// All bands of this frame, top to bottom.
    pub fn bands(&self) -> (r: Vec<Band>)
        requires
            self.wf(),
        ensures
            r@.len() == self.spec_workers(),
            forall|i: int|
                0 <= i < r@.len() ==> {
                    &&& #[trigger] r@[i].start_row == band_start(
                        self.spec_height(),
                        self.spec_workers(),
                        i as nat,
                    )
                    &&& r@[i].end_row == band_end(self.spec_height(), self.spec_workers(), i as nat)
                },
    {
        let mut r: Vec<Band> = Vec::new();
        let mut i: usize = 0;
        while i < self.workers
            invariant
                self.wf(),
                i <= self.spec_workers(),
                r@.len() == i,
                forall|j: int|
                    0 <= j < i ==> {
                        &&& #[trigger] r@[j].start_row == band_start(
                            self.spec_height(),
                            self.spec_workers(),
                            j as nat,
                        )
                        &&& r@[j].end_row == band_end(
                            self.spec_height(),
                            self.spec_workers(),
                            j as nat,
                        )
                    },
            decreases self.spec_workers() - i,
        {
            let b = self.band(i);
            r.push(b);
            i = i + 1;
        }
        r
    }
}

} // verus!
