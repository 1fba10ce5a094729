use celshade::bucket::{
    bucket, cell_index, chunk_index, get_hue_index, sorted_thresholds, CellIndex, Config,
    ConfigError, LevelMode,
};
use celshade::color::{Pixel, Ratio};

fn pixel(red: u8, green: u8, blue: u8) -> Pixel {
    Pixel { red, green, blue }
}

#[test]
fn hue_index_counts_the_thresholds_reached() {
    let thresholds: Vec<i64> = vec![10, 20, 30];
    assert_eq!(get_hue_index(5, &thresholds), 0);
    assert_eq!(get_hue_index(15, &thresholds), 1);
    assert_eq!(get_hue_index(25, &thresholds), 2);
    assert_eq!(get_hue_index(35, &thresholds), 3);
}

#[test]
fn hue_equal_to_a_threshold_has_reached_it() {
    let thresholds: Vec<i64> = vec![10, 20, 30];
    assert_eq!(get_hue_index(10, &thresholds), 1);
    assert_eq!(get_hue_index(20, &thresholds), 2);
    assert_eq!(get_hue_index(30, &thresholds), 3);
    assert_eq!(get_hue_index(9, &thresholds), 0);
}

#[test]
fn hue_index_without_thresholds_is_zero() {
    let thresholds: Vec<i64> = Vec::new();
    assert_eq!(get_hue_index(0, &thresholds), 0);
    assert_eq!(get_hue_index(359_999_999, &thresholds), 0);
    assert_eq!(get_hue_index(i64::MIN, &thresholds), 0);
    assert_eq!(get_hue_index(i64::MAX, &thresholds), 0);
}

#[test]
fn hue_index_stops_at_the_first_threshold_not_reached() {
    let thresholds: Vec<i64> = vec![10, 40, 20];
    assert_eq!(get_hue_index(25, &thresholds), 1);
    assert_eq!(get_hue_index(45, &thresholds), 3);
}

#[test]
fn hue_index_handles_repeated_and_negative_thresholds() {
    let thresholds: Vec<i64> = vec![-5, 0, 0, 7];
    assert_eq!(get_hue_index(-6, &thresholds), 0);
    assert_eq!(get_hue_index(-5, &thresholds), 1);
    assert_eq!(get_hue_index(0, &thresholds), 3);
    assert_eq!(get_hue_index(7, &thresholds), 4);
}

#[test]
fn hue_index_never_falls_as_the_hue_grows() {
    let thresholds: Vec<i64> = vec![30_000_000, 90_500_000, 180_000_000, 270_250_000];
    let mut previous: usize = 0;
    let mut hue: i64 = 0;
    while hue < 360_000_000 {
        let index = get_hue_index(hue, &thresholds);
        assert!(index >= previous);
        previous = index;
        hue += 250_000;
    }
    assert_eq!(previous, 4);
}

#[test]
fn chunk_index_is_the_level_times_the_chunks_rounded_down() {
    assert_eq!(chunk_index(Ratio { num: 0, den: 255 }, 4), 0);
    assert_eq!(chunk_index(Ratio { num: 63, den: 255 }, 4), 0);
    assert_eq!(chunk_index(Ratio { num: 64, den: 255 }, 4), 1);
    assert_eq!(chunk_index(Ratio { num: 200, den: 255 }, 4), 3);
    assert_eq!(chunk_index(Ratio { num: 254, den: 255 }, 4), 3);
    assert_eq!(chunk_index(Ratio { num: 54_231_105, den: 255_000_000 }, 10), 2);
}

#[test]
fn level_on_a_chunk_boundary_falls_into_the_upper_chunk() {
    assert_eq!(chunk_index(Ratio { num: 1, den: 3 }, 3), 1);
    assert_eq!(chunk_index(Ratio { num: 2, den: 3 }, 3), 2);
    assert_eq!(chunk_index(Ratio { num: 51, den: 255 }, 5), 1);
    assert_eq!(chunk_index(Ratio { num: 1, den: 7 }, 7), 1);
}

#[test]
fn full_level_maps_to_the_chunk_count_itself() {
    let mut chunks: usize = 1;
    while chunks <= 1000 {
        assert_eq!(chunk_index(Ratio { num: 255, den: 255 }, chunks), chunks);
        assert_eq!(chunk_index(Ratio { num: 1, den: 1 }, chunks), chunks);
        assert_eq!(chunk_index(Ratio { num: 254, den: 255 }, chunks), (254 * chunks) / 255);
        assert!(chunk_index(Ratio { num: 254, den: 255 }, chunks) < chunks);
        chunks += 1;
    }
    assert_eq!(chunk_index(Ratio { num: 7, den: 7 }, usize::MAX), usize::MAX);
}

#[test]
fn zero_chunks_put_every_level_into_chunk_zero() {
    assert_eq!(chunk_index(Ratio { num: 0, den: 255 }, 0), 0);
    assert_eq!(chunk_index(Ratio { num: 255, den: 255 }, 0), 0);
}

#[test]
fn thresholds_are_put_in_ascending_order() {
    let given: Vec<i64> = vec![270_000_000, -1, 30_000_000, 30_000_000, 5];
    assert_eq!(sorted_thresholds(&given), vec![-1, 5, 30_000_000, 30_000_000, 270_000_000]);
    let none: Vec<i64> = Vec::new();
    assert_eq!(sorted_thresholds(&none), Vec::<i64>::new());
    assert_eq!(given, vec![270_000_000, -1, 30_000_000, 30_000_000, 5]);
}

#[test]
fn config_keeps_its_settings_and_sorts_the_thresholds() {
    let config = Config::new(vec![300, 100, 200], 4, LevelMode::Luminance { chunks: 6 });
    assert_eq!(config.hue_thresholds(), &vec![100, 200, 300]);
    assert_eq!(config.saturation_chunks(), 4);
    assert_eq!(config.level(), LevelMode::Luminance { chunks: 6 });
    assert_eq!(config.level().chunk_count(), 6);
}

#[test]
fn value_chunks_win_over_luminance_chunks() {
    assert_eq!(
        LevelMode::from_chunk_counts(Some(3), Some(5)),
        Ok(LevelMode::Value { chunks: 3 })
    );
    assert_eq!(LevelMode::from_chunk_counts(Some(3), None), Ok(LevelMode::Value { chunks: 3 }));
    assert_eq!(
        LevelMode::from_chunk_counts(None, Some(5)),
        Ok(LevelMode::Luminance { chunks: 5 })
    );
}

#[test]
fn missing_level_chunks_are_an_error() {
    assert_eq!(LevelMode::from_chunk_counts(None, None), Err(ConfigError::MissingLevelChunks));
}

#[test]
fn bucket_combines_the_three_indices() {
    let config =
        Config::new(vec![210_000_000, 90_000_000, 330_000_000], 2, LevelMode::Value { chunks: 4 });
    let cell = bucket(
        200_000_000,
        Ratio { num: 150, den: 200 },
        Ratio { num: 200, den: 255 },
        &config,
    );
    assert_eq!(cell, CellIndex { hue: 1, saturation: 1, level: 3 });
    let low = bucket(0, Ratio { num: 0, den: 1 }, Ratio { num: 0, den: 255 }, &config);
    assert_eq!(low, CellIndex { hue: 0, saturation: 0, level: 0 });
    let high =
        bucket(359_999_999, Ratio { num: 9, den: 9 }, Ratio { num: 255, den: 255 }, &config);
    assert_eq!(high, CellIndex { hue: 3, saturation: 2, level: 4 });
}

#[test]
fn cell_index_of_sample_pixels_by_value() {
    let config =
        Config::new(vec![90_000_000, 210_000_000, 330_000_000], 2, LevelMode::Value { chunks: 4 });
    assert_eq!(cell_index(&pixel(250, 10, 10), &config), CellIndex { hue: 1, saturation: 1, level: 3 });
    assert_eq!(cell_index(&pixel(10, 250, 10), &config), CellIndex { hue: 2, saturation: 1, level: 3 });
    assert_eq!(cell_index(&pixel(10, 10, 250), &config), CellIndex { hue: 0, saturation: 1, level: 3 });
    assert_eq!(cell_index(&pixel(100, 100, 100), &config), CellIndex { hue: 1, saturation: 0, level: 1 });
}

#[test]
fn cell_index_of_sample_pixels_by_luminance() {
    let config = Config::new(
        vec![90_000_000, 210_000_000, 330_000_000],
        2,
        LevelMode::Luminance { chunks: 4 },
    );
    assert_eq!(cell_index(&pixel(250, 10, 10), &config), CellIndex { hue: 1, saturation: 1, level: 0 });
    assert_eq!(cell_index(&pixel(240, 20, 20), &config), CellIndex { hue: 1, saturation: 1, level: 1 });
    assert_eq!(cell_index(&pixel(10, 250, 10), &config), CellIndex { hue: 2, saturation: 1, level: 2 });
    assert_eq!(cell_index(&pixel(10, 10, 250), &config), CellIndex { hue: 0, saturation: 1, level: 0 });
    assert_eq!(cell_index(&pixel(100, 100, 100), &config), CellIndex { hue: 1, saturation: 0, level: 1 });
}

#[test]
fn fully_saturated_pixel_lands_in_the_bucket_past_the_last_chunk() {
    let mut chunks: usize = 1;
    while chunks <= 64 {
        let config = Config::new(Vec::new(), chunks, LevelMode::Value { chunks: 1 });
        assert_eq!(cell_index(&pixel(255, 0, 0), &config).saturation, chunks);
        assert_eq!(cell_index(&pixel(0, 9, 3), &config).saturation, chunks);
        assert!(cell_index(&pixel(255, 1, 1), &config).saturation < chunks);
        chunks += 1;
    }
}

#[test]
fn without_thresholds_every_pixel_is_in_hue_bucket_zero() {
    let config = Config::new(Vec::new(), 3, LevelMode::Value { chunks: 3 });
    let samples = [
        pixel(255, 0, 0),
        pixel(0, 255, 0),
        pixel(0, 0, 255),
        pixel(0, 255, 255),
        pixel(90, 30, 60),
        pixel(0, 0, 0),
        pixel(255, 255, 255),
    ];
    for sample in samples {
        assert_eq!(cell_index(&sample, &config).hue, 0);
    }
}

#[test]
fn threshold_at_the_exact_hue_is_reached() {
    // The hue of (12, 34, 56) is exactly 30 degrees.
    let at = Config::new(vec![30_000_000], 1, LevelMode::Value { chunks: 1 });
    let above = Config::new(vec![30_000_001], 1, LevelMode::Value { chunks: 1 });
    assert_eq!(cell_index(&pixel(12, 34, 56), &at).hue, 1);
    assert_eq!(cell_index(&pixel(12, 34, 56), &above).hue, 0);
    // The hue of (255, 128, 0) is 210.117647058... degrees.
    let below = Config::new(vec![210_117_647], 1, LevelMode::Value { chunks: 1 });
    let past = Config::new(vec![210_117_648], 1, LevelMode::Value { chunks: 1 });
    assert_eq!(cell_index(&pixel(255, 128, 0), &below).hue, 1);
    assert_eq!(cell_index(&pixel(255, 128, 0), &past).hue, 0);
}

#[test]
fn value_and_luminance_can_disagree_on_the_cell() {
    let by_value = Config::new(vec![90_000_000], 2, LevelMode::Value { chunks: 2 });
    let by_luminance = Config::new(vec![90_000_000], 2, LevelMode::Luminance { chunks: 2 });
    let orange = pixel(200, 100, 50);
    assert_eq!(cell_index(&orange, &by_value), CellIndex { hue: 1, saturation: 1, level: 1 });
    assert_eq!(cell_index(&orange, &by_luminance), CellIndex { hue: 1, saturation: 1, level: 0 });
    let red = pixel(255, 0, 0);
    assert_eq!(cell_index(&red, &by_value).level, 2);
    assert_eq!(cell_index(&red, &by_luminance).level, 0);
}
