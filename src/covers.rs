use vstd::prelude::*;

use crate::collector::Collector;
use crate::error::Error;
use crate::volumes::valid_boundaries;

verus! {

/// The `image` crate's decoding error, carried as an opaque value.
#[verifier::external_type_specification]
#[verifier::external_body]
pub struct ExImageError(image::ImageError);

/// The 8-bit RGB samples (three per pixel, row by row) that decoding an image
/// file's bytes gives, or `None` when they do not decode.
pub uninterp spec fn rgb8_decoding(bytes: Seq<u8>) -> Option<Seq<u8>>;

/// Relies on `image::guess_format`, which picks a built-in format from the
/// leading magic bytes, on `image::load_from_memory_with_format`, which decodes
/// the bytes in that format (neither consults the hooks that a process may
/// register), and on `DynamicImage::to_rgb8` / `ImageBuffer::into_raw`, which
/// give the pixels as 8-bit RGB samples.
#[verifier::external_body]
fn decode_rgb8(bytes: &Vec<u8>) -> (r: Result<Vec<u8>, image::ImageError>)
    ensures
        r matches Ok(px) ==> rgb8_decoding(bytes@) == Some(px@),
        r is Err ==> rgb8_decoding(bytes@) is None,
{
    let format = match image::guess_format(bytes.as_slice()) {
        Ok(f) => f,
        Err(e) => return Err(e),
    };
    match image::load_from_memory_with_format(bytes.as_slice(), format) {
        Ok(img) => Ok(img.to_rgb8().into_raw()),
        Err(e) => Err(e),
    }
}

/// One channel's difference from another, wrapping around as an 8-bit
/// subtraction does, is below the tolerance of 10.
pub open spec fn close_channels(a: u8, b: u8) -> bool {
    (a as int - b as int) % 256 < 10
}

/// A pixel whose channels are pairwise close counts as neutral (grey).
pub open spec fn is_neutral(r: u8, g: u8, b: u8) -> bool {
    close_channels(r, g) && close_channels(r, b) && close_channels(g, b)
}

/// Number of whole pixels in RGB samples.
pub open spec fn pixel_count(px: Seq<u8>) -> nat {
    px.len() / 3
}

/// Number of neutral pixels among the first `n` pixels.
pub open spec fn neutral_count(px: Seq<u8>, n: int) -> nat
    decreases n,
{
    if n <= 0 {
        0
    } else {
        neutral_count(px, n - 1) + if is_neutral(px[3 * (n - 1)], px[3 * (n - 1) + 1], px[3 * (n - 1) + 2]) {
            1nat
        } else {
            0nat
        }
    }
}

/// A cover starts a volume when its share of non-neutral pixels exceeds the
/// sensitivity, given in percent.
pub open spec fn starts_volume(px: Seq<u8>, sensitivity: u8) -> bool {
    let total = pixel_count(px) as int;
    (total - neutral_count(px, total)) * 100 > total * sensitivity
}

/// The volume starts that per-chapter cover verdicts give: chapter 0 always,
/// then every later chapter whose cover starts a volume, ascending.
pub open spec fn volume_starts(flags: Seq<bool>) -> Seq<usize>
    decreases flags.len(),
{
    if flags.len() == 0 {
        Seq::empty()
    } else if flags.len() == 1 {
        seq![0usize]
    } else if flags.last() {
        volume_starts(flags.drop_last()).push((flags.len() - 1) as usize)
    } else {
        volume_starts(flags.drop_last())
    }
}

/// The verdict of one chapter's classification: whether it starts a volume.
pub open spec fn verdict(res: Result<bool, Error>) -> bool {
    res matches Ok(true)
}

/// The verdicts of all chapters.
pub open spec fn verdicts(results: Seq<Result<bool, Error>>) -> Seq<bool> {
    results.map_values(|res: Result<bool, Error>| verdict(res))
}

/// Strictly ascending indices below `n`, the first being 0.
pub open spec fn ascending_below(b: Seq<usize>, n: int) -> bool {
    &&& b.len() > 0 ==> b[0] == 0
    &&& forall|i: int, j: int| 0 <= i < j < b.len() ==> b[i] < b[j]
    &&& forall|i: int| 0 <= i < b.len() ==> b[i] < n
}

proof fn lemma_volume_starts_shape(flags: Seq<bool>)
    requires
        flags.len() <= usize::MAX,
    ensures
        ascending_below(volume_starts(flags), flags.len() as int),
        flags.len() > 0 ==> volume_starts(flags).len() > 0,
    decreases flags.len(),
{
    if flags.len() > 1 {
        lemma_volume_starts_shape(flags.drop_last());
        let prev = volume_starts(flags.drop_last());
        if flags.last() {
            let b = prev.push((flags.len() - 1) as usize);
            assert forall|i: int, j: int| 0 <= i < j < b.len() implies b[i] < b[j] by {
                if j == b.len() - 1 {
                    assert(b[i] == prev[i]);
                }
            }
            assert(ascending_below(b, flags.len() as int));
        }
    }
}

proof fn lemma_neutral_count_bound(px: Seq<u8>, n: int)
    ensures
        neutral_count(px, n) <= if n < 0 { 0 } else { n },
    decreases n,
{
    if n > 0 {
        lemma_neutral_count_bound(px, n - 1);
    }
}

/// Every whole pixel has equal red, green and blue channels.
pub open spec fn all_grey(px: Seq<u8>) -> bool {
    forall|i: int|
        0 <= i < pixel_count(px) ==> #[trigger] px[3 * i] == px[3 * i + 1] && px[3 * i] == px[3 * i + 2]
}

/// Every whole pixel is pure red.
pub open spec fn all_red(px: Seq<u8>) -> bool {
    forall|i: int|
        0 <= i < pixel_count(px) ==> #[trigger] px[3 * i] == 255 && px[3 * i + 1] == 0 && px[3 * i + 2]
            == 0
}

proof fn lemma_neutral_count_grey(px: Seq<u8>, n: int)
    requires
        all_grey(px),
        0 <= n <= pixel_count(px),
    ensures
        neutral_count(px, n) == n,
    decreases n,
{
    if n > 0 {
        lemma_neutral_count_grey(px, n - 1);
        let k = n - 1;
        assert(px[3 * k] == px[3 * k + 1] && px[3 * k] == px[3 * k + 2]);
    }
}

proof fn lemma_neutral_count_red(px: Seq<u8>, n: int)
    requires
        all_red(px),
        0 <= n <= pixel_count(px),
    ensures
        neutral_count(px, n) == 0,
    decreases n,
{
    if n > 0 {
        lemma_neutral_count_red(px, n - 1);
        let k = n - 1;
        assert(px[3 * k] == 255 && px[3 * k + 1] == 0);
        assert(!close_channels(255, 0));
    }
}

/// A cover whose every pixel is grey (equal channels) never starts a volume,
/// whatever the sensitivity.
pub proof fn lemma_grey_cover_is_not_a_start(px: Seq<u8>, sensitivity: u8)
    requires
        all_grey(px),
    ensures
        !starts_volume(px, sensitivity),
{
    lemma_neutral_count_grey(px, pixel_count(px) as int);
}

/// A cover of at least one pixel, all pure red, starts a volume at any
/// sensitivity below 100 percent, the default 75 among them.
pub proof fn lemma_red_cover_is_a_start(px: Seq<u8>, sensitivity: u8)
    requires
        all_red(px),
        pixel_count(px) > 0,
        sensitivity < 100,
    ensures
        starts_volume(px, sensitivity),
{
    lemma_neutral_count_red(px, pixel_count(px) as int);
    let t = pixel_count(px) as int;
    assert(t * 100 > t * sensitivity) by (nonlinear_arith)
        requires
            t > 0,
            sensitivity < 100,
    ;
}

fn close(a: u8, b: u8) -> (r: bool)
    ensures
        r == close_channels(a, b),
{
    let d = a.wrapping_sub(b);
    assert(d as int == (a as int - b as int) % 256) by (bit_vector)
        requires
            d == a.wrapping_sub(b),
    ;
    d < 10
}

impl Collector {
    /// Whether a cover, given as RGB samples, is grey: its share of
    /// non-neutral pixels does not exceed the sensitivity (in percent).
    pub fn is_grayscale(img: &Vec<u8>, sensibility: u8) -> (r: bool)
        ensures
            r == !starts_volume(img@, sensibility),
    {
        let len = img.len();
        let total: usize = len / 3;
        let mut neutral: usize = 0;
        let mut i: usize = 0;
        while i < total
            invariant
                total == pixel_count(img@),
                len == img@.len(),
                i <= total,
                neutral == neutral_count(img@, i as int),
                neutral <= i,
            decreases total - i,
        {
            assert(3 * i + 2 < img@.len()) by (nonlinear_arith)
                requires
                    i < total,
                    total == img@.len() / 3,
                    len == img@.len(),
            ;
            let r = img[3 * i];
            let g = img[3 * i + 1];
            let b = img[3 * i + 2];
            if close(r, g) && close(r, b) && close(g, b) {
                neutral = neutral + 1;
            }
            i = i + 1;
        }
        let colored: u128 = (total - neutral) as u128;
        assert(colored * 100 <= u128::MAX && (total as u128) * (sensibility as u128) <= u128::MAX)
            by (nonlinear_arith)
            requires
                colored <= total,
                total <= usize::MAX,
                usize::MAX <= u64::MAX,
                sensibility <= u8::MAX,
        ;
        !(colored * 100 > (total as u128) * (sensibility as u128))
    }

    /// Decodes a chapter's cover image and tells whether it starts a volume.
    pub fn is_volume_start(cover: &Vec<u8>, sensibility: u8) -> (r: Result<bool, Error>)
        ensures
            rgb8_decoding(cover@) matches Some(px) ==> r == Ok::<bool, Error>(starts_volume(px, sensibility)),
            rgb8_decoding(cover@) is None ==> r matches Err(Error::ImageFailure(_)),
    {
        match decode_rgb8(cover) {
            Ok(px) => Ok(!Collector::is_grayscale(&px, sensibility)),
            Err(_) => Err(Error::ImageFailure(String::from_str("the cover image could not be decoded"))),
        }
    }

    /// Gathers the per-chapter cover verdicts, indexed by chapter, into the
    /// ascending list of volume starts. Chapter 0 always starts a volume, whatever
    /// its flag says; any chapter whose classification failed, chapter 0
    /// included, fails the whole, with the failure of the first such chapter.
    pub fn determine_volume_start_chapters(&self, cover_verdicts: Vec<Result<bool, Error>>) -> (r:
        Result<Vec<usize>, Error>)
        ensures
            r is Ok <==> forall|i: int|
                0 <= i < cover_verdicts@.len() ==> #[trigger] cover_verdicts@[i] is Ok,
            r matches Ok(b) ==> b@ == volume_starts(verdicts(cover_verdicts@)),
            r matches Ok(b) ==> ascending_below(b@, cover_verdicts@.len() as int),
            r matches Ok(b) ==> valid_boundaries(b@, cover_verdicts@.len() as int),
            r matches Ok(b) ==> (cover_verdicts@.len() == 0 <==> b@.len() == 0),
            r matches Err(e) ==> exists|i: int|
                0 <= i < cover_verdicts@.len() && (forall|j: int|
                    0 <= j < i ==> #[trigger] cover_verdicts@[j] is Ok)
                    && cover_verdicts@[i] == Err::<bool, Error>(e),
    {
        let mut results = cover_verdicts;
        let n = results.len();
        let ghost flags = verdicts(cover_verdicts@);
        let mut starts: Vec<usize> = Vec::new();
        if n > 0 {
            if results[0].is_err() {
                let e = results.remove(0);
                return match e {
                    Err(err) => Err(err),
                    Ok(_) => Err(Error::ConcurrentTaskFailure(String::new())),
                };
            }
            starts.push(0);
            assert(flags.subrange(0, 1).drop_last() =~= Seq::<bool>::empty());
        }
        let mut i: usize = 1;
        while i < n
            invariant
                n == cover_verdicts@.len(),
                results@ == cover_verdicts@,
                flags == verdicts(cover_verdicts@),
                1 <= i,
                n > 0 ==> i <= n,
                n == 0 ==> starts@.len() == 0,
                n > 0 ==> starts@ == volume_starts(flags.subrange(0, i as int)),
                forall|j: int| 0 <= j < i && j < n ==> #[trigger] cover_verdicts@[j] is Ok,
            decreases n - i,
        {
            assert(flags.subrange(0, i + 1).drop_last() =~= flags.subrange(0, i as int));
            let failed = match &results[i] {
                Ok(flag) => {
                    if *flag {
                        starts.push(i);
                    }
                    false
                },
                Err(_) => true,
            };
            if failed {
                let e = results.remove(i);
                return match e {
                    Err(err) => Err(err),
                    Ok(_) => Err(Error::ConcurrentTaskFailure(String::new())),
                };
            }
            i = i + 1;
        }
        proof {
            if n > 0 {
                assert(flags.subrange(0, n as int) =~= flags);
            }
            lemma_volume_starts_shape(flags);
        }
        Ok(starts)
    }
}

} // verus!
