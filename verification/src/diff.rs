//! Image comparison for golden tests: per-channel differences of two RGBA
//! buffers, their summary counts, and a difference image.

use vstd::prelude::*;

use crate::image_io::{encode_png_rgba8, png_signature, spec_png_rgba8};

verus! {

/// The two buffers do not both hold `width * height` RGBA pixels, or the
/// difference image could not be encoded.
#[derive(Debug)]
pub struct DiffError;

/// Distance between two byte values.
pub open spec fn abs_diff(x: u8, y: u8) -> int {
    if x >= y {
        x - y
    } else {
        y - x
    }
}

pub open spec fn max2(x: int, y: int) -> int {
    if x >= y {
        x
    } else {
        y
    }
}

/// Distance between the `k`-th bytes of the two buffers.
pub open spec fn channel_diff(a: Seq<u8>, b: Seq<u8>, k: int) -> int {
    abs_diff(a[k], b[k])
}

/// The largest channel distance of pixel `i`.
pub open spec fn pixel_diff(a: Seq<u8>, b: Seq<u8>, i: int) -> int {
    max2(
        max2(max2(channel_diff(a, b, 4 * i), channel_diff(a, b, 4 * i + 1)), channel_diff(a, b, 4 * i + 2)),
        channel_diff(a, b, 4 * i + 3),
    )
}

/// Sum of the channel distances over the first `n` bytes.
pub open spec fn sum_abs_diff(a: Seq<u8>, b: Seq<u8>, n: int) -> int
    decreases n,
{
    if n <= 0 {
        0
    } else {
        sum_abs_diff(a, b, n - 1) + channel_diff(a, b, n - 1)
    }
}

/// Largest channel distance over the first `n` bytes (0 when `n` is 0).
pub open spec fn max_abs_diff(a: Seq<u8>, b: Seq<u8>, n: int) -> int
    decreases n,
{
    if n <= 0 {
        0
    } else {
        max2(max_abs_diff(a, b, n - 1), channel_diff(a, b, n - 1))
    }
}

/// Number of pixels among the first `n` whose channels are not all equal.
pub open spec fn count_differing(a: Seq<u8>, b: Seq<u8>, n: int) -> int
    decreases n,
{
    if n <= 0 {
        0
    } else {
        count_differing(a, b, n - 1) + if pixel_diff(a, b, n - 1) > 0 {
            1int
        } else {
            0int
        }
    }
}

/// The colour of pixel `i` in the difference image: red is the pixel's largest
/// channel distance, blue is 40 where the pixels agree, alpha is opaque.
pub open spec fn diff_pixel_rgba(a: Seq<u8>, b: Seq<u8>, i: int) -> Seq<u8> {
    let d = pixel_diff(a, b, i);
    seq![d as u8, 0u8, if d == 0 { 40u8 } else { 0u8 }, 255u8]
}

/// The difference image of the first `n` pixels, row-major RGBA.
pub open spec fn diff_image(a: Seq<u8>, b: Seq<u8>, n: int) -> Seq<u8>
    decreases n,
{
    if n <= 0 {
        Seq::empty()
    } else {
        diff_image(a, b, n - 1) + diff_pixel_rgba(a, b, n - 1)
    }
}

/// Both buffers hold exactly `width * height` RGBA pixels.
pub open spec fn buffers_fit(width: u32, height: u32, a: Seq<u8>, b: Seq<u8>) -> bool {
    a.len() == b.len() && a.len() == width * height * 4
}

/// Pixel-level comparison of two RGBA buffers.
pub struct PixelDiff {
    /// Largest distance over all channels.
    pub max_abs: u8,
    /// Sum of the distances over all channels.
    pub sum_abs: u64,
    /// Number of pixels that differ in any channel.
    pub differing: u64,
    /// The difference image, row-major RGBA.
    pub diff_rgba: Vec<u8>,
}

/// Comparison of two RGBA buffers with the difference image as PNG.
pub struct ImageDiff {
    /// Largest distance over all channels.
    pub max_abs: u8,
    /// Sum of the distances over all channels (mean = sum / (4 * pixels)).
    pub sum_abs: u64,
    /// Number of pixels that differ in any channel.
    pub differing: u64,
    /// Number of pixels compared.
    pub total_pixels: u64,
    /// The difference image, PNG-encoded.
    pub diff_png: Vec<u8>,
}

proof fn lemma_sums_bounded(a: Seq<u8>, b: Seq<u8>, n: int)
    requires
        n >= 0,
    ensures
        0 <= sum_abs_diff(a, b, n) <= 255 * n,
        0 <= max_abs_diff(a, b, n) <= 255,
    decreases n,
{
    if n > 0 {
        lemma_sums_bounded(a, b, n - 1);
    }
}

proof fn lemma_count_bounded(a: Seq<u8>, b: Seq<u8>, n: int)
    requires
        n >= 0,
    ensures
        0 <= count_differing(a, b, n) <= n,
    decreases n,
{
    if n > 0 {
        lemma_count_bounded(a, b, n - 1);
    }
}

proof fn lemma_diff_image_len(a: Seq<u8>, b: Seq<u8>, n: int)
    requires
        n >= 0,
    ensures
        diff_image(a, b, n).len() == 4 * n,
    decreases n,
{
    if n > 0 {
        lemma_diff_image_len(a, b, n - 1);
    }
}

/// Compare two RGBA buffers of `width` x `height` pixels channel by channel.
pub fn diff_pixels(width: u32, height: u32, a: &[u8], b: &[u8]) -> (r: Result<PixelDiff, DiffError>)
    requires
        width * height * 4 <= u32::MAX,
    ensures
        r is Err <==> !buffers_fit(width, height, a@, b@),
        r matches Ok(d) ==> {
            &&& d.max_abs == max_abs_diff(a@, b@, a@.len() as int)
            &&& d.sum_abs == sum_abs_diff(a@, b@, a@.len() as int)
            &&& d.differing == count_differing(a@, b@, width * height)
            &&& d.diff_rgba@ == diff_image(a@, b@, width * height)
        },
{
    if a.len() != b.len() || a.len() != (width * height * 4) as usize {
        return Err(DiffError);
    }
    let pixels = (width * height) as usize;
    let alen = a.len();
    let mut max_abs: u8 = 0;
    let mut sum: u64 = 0;
    let mut differing: u64 = 0;
    let mut diff_rgba: Vec<u8> = Vec::new();
    let mut i: usize = 0;
    while i < pixels
        invariant
            pixels == width * height,
            a@.len() == 4 * pixels,
            b@.len() == 4 * pixels,
            i <= pixels,
            max_abs == max_abs_diff(a@, b@, 4 * i),
            sum == sum_abs_diff(a@, b@, 4 * i),
            differing == count_differing(a@, b@, i as int),
            diff_rgba@ == diff_image(a@, b@, i as int),
            sum <= 1020 * i,
            differing <= i,
            4 * pixels <= u32::MAX,
            alen == a@.len(),
        decreases pixels - i,
    {
        let mut pix_diff: u8 = 0;
        let mut c: usize = 0;
        while c < 4
            invariant
                pixels == width * height,
                a@.len() == 4 * pixels,
                b@.len() == 4 * pixels,
                i < pixels,
                c <= 4,
                max_abs == max_abs_diff(a@, b@, 4 * i + c),
                sum == sum_abs_diff(a@, b@, 4 * i + c),
                sum <= 1020 * i + 255 * c,
                4 * pixels <= u32::MAX,
                alen == a@.len(),
                c == 0 ==> pix_diff == 0,
                c == 1 ==> pix_diff == channel_diff(a@, b@, 4 * i),
                c == 2 ==> pix_diff == max2(channel_diff(a@, b@, 4 * i), channel_diff(a@, b@, 4 * i + 1)),
                c == 3 ==> pix_diff == max2(
                    max2(channel_diff(a@, b@, 4 * i), channel_diff(a@, b@, 4 * i + 1)),
                    channel_diff(a@, b@, 4 * i + 2),
                ),
                c == 4 ==> pix_diff == pixel_diff(a@, b@, i as int),
            decreases 4 - c,
        {
            let x = a[i * 4 + c];
            let y = b[i * 4 + c];
            let d: u8 = if x >= y {
                x - y
            } else {
                y - x
            };
            if d > pix_diff {
                pix_diff = d;
            }
            sum = sum + d as u64;
            if d > max_abs {
                max_abs = d;
            }
            c += 1;
        }
        if pix_diff > 0 {
            differing = differing + 1;
        }
        diff_rgba.push(pix_diff);
        diff_rgba.push(0);
        diff_rgba.push(
            if pix_diff == 0 {
                40
            } else {
                0
            },
        );
        diff_rgba.push(255);
        assert(diff_rgba@ =~= diff_image(a@, b@, i as int) + diff_pixel_rgba(a@, b@, i as int));
        i += 1;
    }
    Ok(PixelDiff { max_abs, sum_abs: sum, differing, diff_rgba })
}

/// Compare two RGBA buffers of `width` x `height` pixels and encode the
/// difference image as PNG.
pub fn diff_images(width: u32, height: u32, a: &[u8], b: &[u8]) -> (r: Result<ImageDiff, DiffError>)
    requires
        width * height * 4 <= u32::MAX,
    ensures
        !buffers_fit(width, height, a@, b@) ==> r is Err,
        buffers_fit(width, height, a@, b@) ==> match spec_png_rgba8(
            width,
            height,
            diff_image(a@, b@, width * height),
        ) {
            Ok(png) => r matches Ok(d) && {
                &&& d.max_abs == max_abs_diff(a@, b@, a@.len() as int)
                &&& d.sum_abs == sum_abs_diff(a@, b@, a@.len() as int)
                &&& d.differing == count_differing(a@, b@, width * height)
                &&& d.total_pixels == width * height
                &&& d.diff_png@ == png
            },
            Err(_) => r is Err,
        },
        width == 0 || height == 0 ==> r is Err,
        buffers_fit(width, height, a@, b@) && width > 0 && height > 0 ==> r is Ok,
        r matches Ok(d) ==> d.diff_png@.len() >= 8 && d.diff_png@.take(8) == png_signature(),
{
    let d = match diff_pixels(width, height, a, b) {
        Ok(d) => d,
        Err(e) => return Err(e),
    };
    proof {
        lemma_diff_image_len(a@, b@, width * height);
    }
    match encode_png_rgba8(width, height, d.diff_rgba) {
        Ok(png) => Ok(
            ImageDiff {
                max_abs: d.max_abs,
                sum_abs: d.sum_abs,
                differing: d.differing,
                total_pixels: (width * height) as u64,
                diff_png: png,
            },
        ),
        Err(_) => Err(DiffError),
    }
}

/// An image compared with itself shows no difference at all.
pub proof fn lemma_self_diff_is_zero(a: Seq<u8>, n: int)
    requires
        0 <= n,
    ensures
        max_abs_diff(a, a, 4 * n) == 0,
        sum_abs_diff(a, a, 4 * n) == 0,
        count_differing(a, a, n) == 0,
    decreases n,
{
    if n > 0 {
        lemma_self_diff_is_zero(a, n - 1);
        assert(max_abs_diff(a, a, 4 * n - 3) == 0);
        assert(max_abs_diff(a, a, 4 * n - 2) == 0);
        assert(max_abs_diff(a, a, 4 * n - 1) == 0);
        assert(sum_abs_diff(a, a, 4 * n - 3) == 0);
        assert(sum_abs_diff(a, a, 4 * n - 2) == 0);
        assert(sum_abs_diff(a, a, 4 * n - 1) == 0);
    }
}

/// Comparison is symmetric: swapping the two images changes no count and no
/// pixel of the difference image.
pub proof fn lemma_diff_symmetric(a: Seq<u8>, b: Seq<u8>, n: int)
    requires
        0 <= n,
    ensures
        max_abs_diff(a, b, n) == max_abs_diff(b, a, n),
        sum_abs_diff(a, b, n) == sum_abs_diff(b, a, n),
        count_differing(a, b, n) == count_differing(b, a, n),
        diff_image(a, b, n) == diff_image(b, a, n),
    decreases n,
{
    if n > 0 {
        lemma_diff_symmetric(a, b, n - 1);
        assert(diff_pixel_rgba(a, b, n - 1) =~= diff_pixel_rgba(b, a, n - 1));
    }
}

/// The largest distance is zero exactly when the compared bytes are equal.
pub proof fn lemma_zero_max_iff_equal(a: Seq<u8>, b: Seq<u8>, n: int)
    requires
        0 <= n <= a.len(),
        n <= b.len(),
    ensures
        (max_abs_diff(a, b, n) == 0) <==> (a.take(n) == b.take(n)),
    decreases n,
{
    if n > 0 {
        lemma_zero_max_iff_equal(a, b, n - 1);
        lemma_sums_bounded(a, b, n - 1);
        if a.take(n) == b.take(n) {
            assert(a.take(n - 1) =~= a.take(n).take(n - 1));
            assert(b.take(n - 1) =~= b.take(n).take(n - 1));
            assert(a.take(n)[n - 1] == b.take(n)[n - 1]);
        }
        if max_abs_diff(a, b, n) == 0 {
            assert(a.take(n) =~= a.take(n - 1).push(a[n - 1]));
            assert(b.take(n) =~= b.take(n - 1).push(b[n - 1]));
        }
    } else {
        assert(a.take(0) =~= b.take(0));
    }
}

/// The counts stay within their ranges: no more differing pixels than pixels,
/// a distance sum of at most 255 per byte, and no pixel counts as differing
/// unless the largest distance is positive.
pub proof fn lemma_diff_bounds(a: Seq<u8>, b: Seq<u8>, n: int)
    requires
        0 <= n,
    ensures
        0 <= count_differing(a, b, n) <= n,
        0 <= sum_abs_diff(a, b, 4 * n) <= 255 * 4 * n,
        0 <= max_abs_diff(a, b, 4 * n) <= 255,
        max_abs_diff(a, b, 4 * n) == 0 ==> count_differing(a, b, n) == 0,
    decreases n,
{
    lemma_count_bounded(a, b, n);
    lemma_sums_bounded(a, b, 4 * n);
    if n > 0 {
        lemma_diff_bounds(a, b, n - 1);
        if max_abs_diff(a, b, 4 * n) == 0 {
            lemma_max_prefix(a, b, 4 * n - 4, 4 * n);
            assert(max_abs_diff(a, b, 4 * n - 3) == 0) by {
                lemma_max_prefix(a, b, 4 * n - 3, 4 * n);
            }
            assert(max_abs_diff(a, b, 4 * n - 2) == 0) by {
                lemma_max_prefix(a, b, 4 * n - 2, 4 * n);
            }
            assert(max_abs_diff(a, b, 4 * n - 1) == 0) by {
                lemma_max_prefix(a, b, 4 * n - 1, 4 * n);
            }
        }
    }
}

/// The largest distance over a prefix is at most that over a longer prefix.
proof fn lemma_max_prefix(a: Seq<u8>, b: Seq<u8>, m: int, n: int)
    requires
        0 <= m <= n,
    ensures
        max_abs_diff(a, b, m) <= max_abs_diff(a, b, n),
        forall|k: int| 0 <= k < n ==> channel_diff(a, b, k) <= max_abs_diff(a, b, n),
    decreases n,
{
    if n > 0 {
        if m < n {
            lemma_max_prefix(a, b, m, n - 1);
        }
        lemma_max_prefix(a, b, n - 1, n - 1);
    }
}

/// A pixel is counted as differing exactly when its four RGBA bytes are not all
/// equal in the two buffers: counting one more pixel adds one when the pixels
/// differ in any channel, alpha included, and nothing when they are equal.
pub proof fn lemma_differing_pixel_step(a: Seq<u8>, b: Seq<u8>, i: int)
    requires
        0 <= i,
        4 * i + 4 <= a.len(),
        4 * i + 4 <= b.len(),
    ensures
        count_differing(a, b, i + 1) == count_differing(a, b, i) + if a.subrange(4 * i, 4 * i + 4)
            == b.subrange(4 * i, 4 * i + 4) {
            0int
        } else {
            1int
        },
{
    let pa = a.subrange(4 * i, 4 * i + 4);
    let pb = b.subrange(4 * i, 4 * i + 4);
    if pa == pb {
        assert(pa[0] == pb[0] && pa[1] == pb[1] && pa[2] == pb[2] && pa[3] == pb[3]);
    } else {
        if a[4 * i] == b[4 * i] && a[4 * i + 1] == b[4 * i + 1] && a[4 * i + 2] == b[4 * i + 2] && a[4
            * i + 3] == b[4 * i + 3] {
            assert(pa =~= pb);
        }
    }
}

/// No pixel among the first `n` is counted as differing exactly when the two
/// buffers agree on all of those pixels' bytes.
pub proof fn lemma_no_differing_iff_equal(a: Seq<u8>, b: Seq<u8>, n: int)
    requires
        0 <= n,
        4 * n <= a.len(),
        4 * n <= b.len(),
    ensures
        (count_differing(a, b, n) == 0) <==> (a.take(4 * n) == b.take(4 * n)),
    decreases n,
{
    if n > 0 {
        lemma_no_differing_iff_equal(a, b, n - 1);
        lemma_differing_pixel_step(a, b, n - 1);
        lemma_diff_bounds(a, b, n - 1);
        let k = 4 * (n - 1);
        assert(a.take(4 * n) =~= a.take(k) + a.subrange(k, k + 4));
        assert(b.take(4 * n) =~= b.take(k) + b.subrange(k, k + 4));
        if a.take(4 * n) == b.take(4 * n) {
            assert(a.take(k) =~= a.take(4 * n).take(k));
            assert(b.take(k) =~= b.take(4 * n).take(k));
            assert(a.subrange(k, k + 4) =~= a.take(4 * n).subrange(k, k + 4));
            assert(b.subrange(k, k + 4) =~= b.take(4 * n).subrange(k, k + 4));
        }
    } else {
        assert(a.take(0) =~= b.take(0));
    }
}

/// The largest difference bounds every byte's difference from above, and the
/// summed difference bounds the largest from above: `max_abs` is at least
/// `|a[k] - b[k]|` for every byte `k` compared, and at most `sum_abs`.
pub proof fn lemma_max_dominates_each_byte(a: Seq<u8>, b: Seq<u8>, n: int, k: int)
    requires
        0 <= k < n,
        n <= a.len(),
        n <= b.len(),
    ensures
        max_abs_diff(a, b, n) >= abs_diff(a[k], b[k]),
        max_abs_diff(a, b, n) <= sum_abs_diff(a, b, n),
    decreases n,
{
    lemma_sums_bounded(a, b, n - 1);
    if k < n - 1 {
        lemma_max_dominates_each_byte(a, b, n - 1, k);
    } else if n - 1 > 0 {
        lemma_max_dominates_each_byte(a, b, n - 1, 0);
    }
}

} // verus!
