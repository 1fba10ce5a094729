use crate::bucket::{
    ascending, bucket_of, cell_of, chunk_of, count_at_most, lemma_ascending_order_is_unique,
    lemma_chunk_bounded, lemma_count_bounded, CellIndex, ConfigView, LevelMode,
};
use crate::color::{Pixel, Ratio};
use crate::shade::shaded;
use crate::table::{lemma_tally_counts_members, tally, Tally};
use vstd::prelude::*;

verus! {

/// No two pixels of different colour share a cell.
pub open spec fn settled(pixels: Seq<Pixel>, config: ConfigView) -> bool {
    forall|i: int, j: int|
        0 <= i < pixels.len() && 0 <= j < pixels.len() && cell_of(#[trigger] pixels[i], config)
            == cell_of(#[trigger] pixels[j], config) ==> pixels[i] == pixels[j]
}

/// The shaded picture is fixed by the pixels, the thresholds in whatever
/// order they were given, the two chunk counts and the level mode: two runs
/// on the same picture with the same settings give the same picture.
pub proof fn lemma_shading_is_determined(pixels: Seq<Pixel>, one: ConfigView, other: ConfigView)
    requires
        ascending(one.thresholds),
        ascending(other.thresholds),
        one.thresholds.to_multiset() == other.thresholds.to_multiset(),
        one.saturation_chunks == other.saturation_chunks,
        one.level == other.level,
    ensures
        shaded(pixels, one) == shaded(pixels, other),
{
    lemma_ascending_order_is_unique(one.thresholds, other.thresholds);
}

/// A hue that grows never falls back into a lower hue bucket.
pub proof fn lemma_hue_bucket_monotonic(thresholds: Seq<i64>, low: int, high: int)
    requires
        low <= high,
    ensures
        count_at_most(thresholds, low) <= count_at_most(thresholds, high),
    decreases thresholds.len(),
{
    if thresholds.len() > 0 {
        lemma_hue_bucket_monotonic(thresholds.drop_last(), low, high);
    }
}

/// With saturation and level held fixed, a larger hue gives the same
/// saturation and level buckets and a hue bucket that is no smaller.
pub proof fn lemma_cell_hue_monotonic(
    low: int,
    high: int,
    saturation: Ratio,
    level: Ratio,
    config: ConfigView,
)
    requires
        low <= high,
        config.thresholds.len() <= usize::MAX,
    ensures
        bucket_of(low, saturation, level, config).hue <= bucket_of(
            high,
            saturation,
            level,
            config,
        ).hue,
        bucket_of(low, saturation, level, config).saturation == bucket_of(
            high,
            saturation,
            level,
            config,
        ).saturation,
        bucket_of(low, saturation, level, config).level == bucket_of(
            high,
            saturation,
            level,
            config,
        ).level,
{
    lemma_hue_bucket_monotonic(config.thresholds, low, high);
    lemma_count_bounded(config.thresholds, low);
    lemma_count_bounded(config.thresholds, high);
}

/// The full level falls into the chunk numbered `chunks`, one past the
/// chunks `0..chunks` that share the rest of the range, and only the full
/// level does.
pub proof fn lemma_full_level_has_own_chunk(level: Ratio, chunks: int)
    requires
        level.is_unit(),
        0 < chunks,
    ensures
        0 <= chunk_of(level, chunks) <= chunks,
        chunk_of(level, chunks) == chunks <==> level.num == level.den,
{
    lemma_chunk_bounded(level, chunks);
    let n = level.num as int;
    let d = level.den as int;
    assert(((n * chunks) / d == chunks) <==> n == d) by (nonlinear_arith)
        requires
            0 <= n <= d,
            0 < d,
            0 < chunks,
    ;
}

/// A pixel with a channel at zero and another above it is fully saturated:
/// its saturation bucket is the number of saturation chunks itself.
pub proof fn lemma_fully_saturated_pixel(pixel: Pixel, config: ConfigView)
    requires
        pixel.min_channel() == 0,
        pixel.max_channel() > 0,
    ensures
        cell_of(pixel, config).saturation == config.saturation_chunks,
{
    let s = pixel.saturation();
    let n = config.saturation_chunks as int;
    assert((s.num * n) / (s.den as int) == n) by (nonlinear_arith)
        requires
            s.num == s.den,
            0 < s.den,
            0 <= n,
    ;
}

/// Without hue thresholds every hue lies in hue bucket 0.
pub proof fn lemma_no_thresholds_one_hue_bucket(pixel: Pixel, config: ConfigView)
    requires
        config.thresholds.len() == 0,
    ensures
        forall|hue: int| count_at_most(config.thresholds, hue) == 0,
        cell_of(pixel, config).hue == 0,
{
}

/// Two pixels that share a cell before shading have one colour after it.
pub proof fn lemma_cell_uniformity(pixels: Seq<Pixel>, config: ConfigView, i: int, j: int)
    requires
        0 <= i < pixels.len(),
        0 <= j < pixels.len(),
        cell_of(pixels[i], config) == cell_of(pixels[j], config),
    ensures
        shaded(pixels, config)[i] == shaded(pixels, config)[j],
{
}

/// Where all pixels of a cell have one colour, the channel sums of the cell
/// are that colour times the count.
pub proof fn lemma_tally_of_one_colour(
    pixels: Seq<Pixel>,
    config: ConfigView,
    cell: CellIndex,
    colour: Pixel,
)
    requires
        forall|i: int|
            0 <= i < pixels.len() && cell_of(#[trigger] pixels[i], config) == cell ==> pixels[i]
                == colour,
    ensures
        tally(pixels, config, cell).red == colour.red * tally(pixels, config, cell).count,
        tally(pixels, config, cell).green == colour.green * tally(pixels, config, cell).count,
        tally(pixels, config, cell).blue == colour.blue * tally(pixels, config, cell).count,
    decreases pixels.len(),
{
    if pixels.len() > 0 {
        let front = pixels.drop_last();
        assert forall|i: int|
            0 <= i < front.len() && cell_of(#[trigger] front[i], config) == cell implies front[i]
            == colour by {
            assert(front[i] == pixels[i]);
        }
        lemma_tally_of_one_colour(front, config, cell, colour);
        let n = tally(front, config, cell).count as int;
        if cell_of(pixels.last(), config) == cell {
            assert(pixels[pixels.len() - 1] == colour);
            lemma_one_more(colour.red as int, n);
            lemma_one_more(colour.green as int, n);
            lemma_one_more(colour.blue as int, n);
        }
    }
}

proof fn lemma_one_more(byte: int, count: int)
    by (nonlinear_arith)
    ensures
        byte * (count + 1) == byte * count + byte,
{
}

proof fn lemma_mean_of_copies(byte: int, count: int)
    by (nonlinear_arith)
    requires
        0 < count,
    ensures
        (byte * count) / count == byte,
{
}

/// Shading leaves a settled picture as it is: the mean of equal colours is
/// that colour.
pub proof fn lemma_settled_is_unchanged(pixels: Seq<Pixel>, config: ConfigView)
    requires
        settled(pixels, config),
    ensures
        shaded(pixels, config) == pixels,
{
    assert forall|i: int| 0 <= i < pixels.len() implies shaded(pixels, config)[i]
        == pixels[i] by {
        let cell = cell_of(pixels[i], config);
        let colour = pixels[i];
        lemma_tally_of_one_colour(pixels, config, cell, colour);
        lemma_tally_counts_members(pixels, config, cell);
        let counted = tally(pixels, config, cell);
        lemma_mean_of_copies(colour.red as int, counted.count as int);
        lemma_mean_of_copies(colour.green as int, counted.count as int);
        lemma_mean_of_copies(colour.blue as int, counted.count as int);
    }
    assert(shaded(pixels, config) =~= pixels);
}

/// Only a settled picture is left as it is: where shading changes nothing,
/// the pixels of each cell already share one colour.
pub proof fn lemma_unchanged_is_settled(pixels: Seq<Pixel>, config: ConfigView)
    requires
        shaded(pixels, config) == pixels,
    ensures
        settled(pixels, config),
{
    assert forall|i: int, j: int|
        0 <= i < pixels.len() && 0 <= j < pixels.len() && cell_of(#[trigger] pixels[i], config)
            == cell_of(#[trigger] pixels[j], config) implies pixels[i] == pixels[j] by {
        assert(shaded(pixels, config)[i] == shaded(pixels, config)[j]);
    }
}

/// Shading a second time changes nothing, provided the first shading left
/// no two differently coloured pixels in one cell. Without that proviso the
/// means of two cells can land in one cell and be averaged once more.
pub proof fn lemma_shading_twice(pixels: Seq<Pixel>, config: ConfigView)
    requires
        settled(shaded(pixels, config), config),
    ensures
        shaded(shaded(pixels, config), config) == shaded(pixels, config),
{
    lemma_settled_is_unchanged(shaded(pixels, config), config);
}

/// A picture of one colour is left as it is, whatever the configuration.
pub proof fn lemma_one_colour_unchanged(pixels: Seq<Pixel>, config: ConfigView, colour: Pixel)
    requires
        forall|i: int| 0 <= i < pixels.len() ==> pixels[i] == colour,
    ensures
        shaded(pixels, config) == pixels,
{
    lemma_settled_is_unchanged(pixels, config);
}

/// An all-black picture of any size stays all black under any
/// configuration.
pub proof fn lemma_black_unchanged(pixels: Seq<Pixel>, config: ConfigView)
    requires
        forall|i: int|
            0 <= i < pixels.len() ==> pixels[i] == (Pixel { red: 0, green: 0, blue: 0 }),
    ensures
        shaded(pixels, config) == pixels,
{
    lemma_one_colour_unchanged(pixels, config, Pixel { red: 0, green: 0, blue: 0 });
}

/// The level mode matters: there is a pixel, neither gray nor fully
/// saturated, that the two modes put into different cells under the same
/// thresholds and chunk counts.
pub proof fn lemma_modes_disagree(thresholds: Seq<i64>, saturation_chunks: usize)
    ensures
        exists|pixel: Pixel, chunks: usize|
            0 < pixel.chroma() < pixel.max_channel() && cell_of(
                pixel,
                ConfigView { thresholds, saturation_chunks, level: LevelMode::Value { chunks } },
            ) != #[trigger] cell_of(
                pixel,
                ConfigView {
                    thresholds,
                    saturation_chunks,
                    level: LevelMode::Luminance { chunks },
                },
            ),
{
    let pixel = Pixel { red: 200, green: 100, blue: 50 };
    let by_value = ConfigView { thresholds, saturation_chunks, level: LevelMode::Value { chunks: 2 } };
    let by_luminance = ConfigView {
        thresholds,
        saturation_chunks,
        level: LevelMode::Luminance { chunks: 2 },
    };
    assert(pixel.value() == Ratio { num: 200, den: 255 });
    assert(pixel.luminance() == Ratio { num: 117_658_650, den: 255_000_000 });
    assert(cell_of(pixel, by_value).level == 1);
    assert(cell_of(pixel, by_luminance).level == 0);
}

} // verus!
