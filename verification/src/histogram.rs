use crate::color::{lemma_hue_range, Hsv, Pixel, HUE_UNITS_PER_DEGREE};
use vstd::prelude::*;

verus! {

/// The hue of a pixel in whole degrees, rounded down: a number in `0..360`.
pub open spec fn hue_degree(pixel: Pixel) -> int {
    pixel.hue() / (HUE_UNITS_PER_DEGREE as int)
}

/// The number of pixels whose hue, in whole degrees, is `degree`.
pub open spec fn degree_count(pixels: Seq<Pixel>, degree: int) -> nat
    decreases pixels.len(),
{
    if pixels.len() == 0 {
        0
    } else {
        degree_count(pixels.drop_last(), degree) + if hue_degree(pixels.last()) == degree {
            1nat
        } else {
            0nat
        }
    }
}

/// No degree counts more pixels than there are, and only the degrees
/// `0..360` count any.
pub proof fn lemma_degree_count_bounded(pixels: Seq<Pixel>, degree: int)
    ensures
        degree_count(pixels, degree) <= pixels.len(),
        degree < 0 || degree >= 360 ==> degree_count(pixels, degree) == 0,
    decreases pixels.len(),
{
    if pixels.len() > 0 {
        lemma_degree_count_bounded(pixels.drop_last(), degree);
        lemma_hue_range(pixels.last());
    }
}

/// The hue histogram of the pixels: for each whole degree of hue that occurs,
/// the degree and the number of pixels that have it, in ascending order of
/// the degree. It is a by-product for inspection and has no part in the
/// shading.
pub fn hue_histogram(pixels: &Vec<Pixel>) -> (histogram: Vec<(usize, usize)>)
    ensures
        forall|k: int|
            0 <= k < histogram.len() ==> 0 < (#[trigger] histogram[k]).1 == degree_count(
                pixels@,
                histogram[k].0 as int,
            ),
        forall|k: int, l: int|
            0 <= k < l < histogram.len() ==> (#[trigger] histogram[k]).0 < (
            #[trigger] histogram[l]).0,
        forall|degree: int|
            degree_count(pixels@, degree) > 0 ==> exists|k: int|
                0 <= k < histogram.len() && (#[trigger] histogram[k]).0 == degree,
{
    let mut counts: Vec<usize> = Vec::new();
    while counts.len() < 360
        invariant
            counts.len() <= 360,
            forall|degree: int| 0 <= degree < counts.len() ==> counts[degree] == 0,
        decreases 360 - counts.len(),
    {
        counts.push(0);
    }
    let mut done: usize = 0;
    while done < pixels.len()
        invariant
            done <= pixels.len(),
            counts.len() == 360,
            forall|degree: int|
                0 <= degree < 360 ==> #[trigger] counts[degree] == degree_count(
                    pixels@.take(done as int),
                    degree,
                ),
        decreases pixels.len() - done,
    {
        let hsv = Hsv::from_pixel(&pixels[done]);
        let degree: usize = (hsv.hue / HUE_UNITS_PER_DEGREE) as usize;
        proof {
            assert(pixels@.take(done + 1).drop_last() == pixels@.take(done as int));
            lemma_degree_count_bounded(pixels@.take(done as int), degree as int);
        }
        let count: usize = counts[degree];
        counts[degree] = count + 1;
        done += 1;
    }
    proof {
        assert(pixels@.take(done as int) == pixels@);
    }
    let mut histogram: Vec<(usize, usize)> = Vec::new();
    let mut degree: usize = 0;
    while degree < 360
        invariant
            degree <= 360,
            counts.len() == 360,
            forall|d: int| 0 <= d < 360 ==> #[trigger] counts[d] == degree_count(pixels@, d),
            forall|k: int|
                0 <= k < histogram.len() ==> 0 < (#[trigger] histogram[k]).1 == degree_count(
                    pixels@,
                    histogram[k].0 as int,
                ),
            forall|k: int| 0 <= k < histogram.len() ==> (#[trigger] histogram[k]).0 < degree,
            forall|k: int, l: int|
                0 <= k < l < histogram.len() ==> (#[trigger] histogram[k]).0 < (
                #[trigger] histogram[l]).0,
            forall|d: int|
                0 <= d < degree && degree_count(pixels@, d) > 0 ==> exists|k: int|
                    0 <= k < histogram.len() && (#[trigger] histogram[k]).0 == d,
        decreases 360 - degree,
    {
        if counts[degree] > 0 {
            let ghost before = histogram@;
            histogram.push((degree, counts[degree]));
            proof {
                assert(histogram[before.len() as int].0 == degree);
                assert forall|d: int|
                    0 <= d < degree + 1 && degree_count(pixels@, d) > 0 implies exists|k: int|
                    0 <= k < histogram.len() && (#[trigger] histogram[k]).0 == d by {
                    if d < degree {
                        let k = choose|k: int|
                            0 <= k < before.len() && (#[trigger] before[k]).0 == d;
                        assert(histogram[k].0 == d);
                    }
                }
            }
        }
        degree += 1;
    }
    proof {
        assert forall|d: int| degree_count(pixels@, d) > 0 implies exists|k: int|
            0 <= k < histogram.len() && (#[trigger] histogram[k]).0 == d by {
            lemma_degree_count_bounded(pixels@, d);
        }
    }
    histogram
}

} // verus!
