use celshade::bucket::{cell_index, Config, LevelMode};
use celshade::color::Pixel;
use celshade::shade::{cel_shade, repaint};
use celshade::table::accumulate;

fn pixel(red: u8, green: u8, blue: u8) -> Pixel {
    Pixel { red, green, blue }
}

fn sample_picture() -> Vec<Pixel> {
    vec![
        pixel(250, 10, 10),
        pixel(240, 20, 20),
        pixel(10, 250, 10),
        pixel(20, 240, 20),
        pixel(10, 10, 250),
        pixel(30, 30, 200),
        pixel(100, 100, 100),
        pixel(110, 110, 110),
    ]
}

fn sample_thresholds() -> Vec<i64> {
    vec![90_000_000, 210_000_000, 330_000_000]
}

#[test]
fn two_reds_in_one_cell_become_their_mean() {
    let config = Config::new(Vec::new(), 1, LevelMode::Luminance { chunks: 1 });
    let mut pixels = vec![pixel(255, 0, 0), pixel(200, 0, 0)];
    assert_eq!(cell_index(&pixels[0], &config), cell_index(&pixels[1], &config));
    cel_shade(&mut pixels, &config);
    assert_eq!(pixels, vec![pixel(227, 0, 0), pixel(227, 0, 0)]);
}

#[test]
fn two_reds_with_one_value_chunk() {
    let config = Config::new(Vec::new(), 1, LevelMode::Value { chunks: 1 });
    let mut pixels = vec![pixel(255, 0, 0), pixel(200, 0, 0)];
    let shared = cell_index(&pixels[0], &config) == cell_index(&pixels[1], &config);
    cel_shade(&mut pixels, &config);
    if shared {
        assert_eq!(pixels, vec![pixel(227, 0, 0), pixel(227, 0, 0)]);
    } else {
        assert_eq!(pixels, vec![pixel(255, 0, 0), pixel(200, 0, 0)]);
    }
    // Full value has a bucket of its own, so the two pixels are kept apart.
    assert!(!shared);
}

#[test]
fn black_picture_is_unchanged() {
    let configs = vec![
        Config::new(Vec::new(), 1, LevelMode::Value { chunks: 1 }),
        Config::new(vec![0, 180_000_000, 359_000_000], 7, LevelMode::Luminance { chunks: 9 }),
        Config::new(vec![180_000_001], 0, LevelMode::Value { chunks: 0 }),
    ];
    for config in configs.iter() {
        for size in [0usize, 1, 2, 17, 1000] {
            let mut pixels = vec![pixel(0, 0, 0); size];
            cel_shade(&mut pixels, config);
            assert_eq!(pixels, vec![pixel(0, 0, 0); size]);
        }
    }
}

#[test]
fn picture_of_one_colour_is_unchanged() {
    let config = Config::new(sample_thresholds(), 3, LevelMode::Value { chunks: 5 });
    let mut pixels = vec![pixel(201, 77, 13); 257];
    cel_shade(&mut pixels, &config);
    assert_eq!(pixels, vec![pixel(201, 77, 13); 257]);
}

#[test]
fn empty_picture_stays_empty() {
    let config = Config::new(sample_thresholds(), 3, LevelMode::Value { chunks: 5 });
    let mut pixels: Vec<Pixel> = Vec::new();
    cel_shade(&mut pixels, &config);
    assert!(pixels.is_empty());
}

#[test]
fn sample_picture_shaded_by_value() {
    let config = Config::new(sample_thresholds(), 2, LevelMode::Value { chunks: 4 });
    let mut pixels = sample_picture();
    cel_shade(&mut pixels, &config);
    assert_eq!(
        pixels,
        vec![
            pixel(245, 15, 15),
            pixel(245, 15, 15),
            pixel(15, 245, 15),
            pixel(15, 245, 15),
            pixel(20, 20, 225),
            pixel(20, 20, 225),
            pixel(105, 105, 105),
            pixel(105, 105, 105),
        ]
    );
}

#[test]
fn sample_picture_shaded_by_luminance() {
    let config = Config::new(sample_thresholds(), 2, LevelMode::Luminance { chunks: 4 });
    let mut pixels = sample_picture();
    cel_shade(&mut pixels, &config);
    assert_eq!(
        pixels,
        vec![
            pixel(250, 10, 10),
            pixel(240, 20, 20),
            pixel(15, 245, 15),
            pixel(15, 245, 15),
            pixel(20, 20, 225),
            pixel(20, 20, 225),
            pixel(105, 105, 105),
            pixel(105, 105, 105),
        ]
    );
}

#[test]
fn switching_the_level_mode_changes_the_cells() {
    let by_value = Config::new(sample_thresholds(), 2, LevelMode::Value { chunks: 4 });
    let by_luminance = Config::new(sample_thresholds(), 2, LevelMode::Luminance { chunks: 4 });
    let picture = sample_picture();
    assert_eq!(cell_index(&picture[0], &by_value), cell_index(&picture[1], &by_value));
    assert_ne!(cell_index(&picture[0], &by_luminance), cell_index(&picture[1], &by_luminance));
    let mut shaded_by_value = sample_picture();
    let mut shaded_by_luminance = sample_picture();
    cel_shade(&mut shaded_by_value, &by_value);
    cel_shade(&mut shaded_by_luminance, &by_luminance);
    assert_ne!(shaded_by_value, shaded_by_luminance);
}

#[test]
fn mean_is_rounded_down() {
    let config = Config::new(Vec::new(), 1, LevelMode::Luminance { chunks: 1 });
    let mut pixels = vec![pixel(255, 1, 0), pixel(254, 0, 0), pixel(254, 0, 0)];
    cel_shade(&mut pixels, &config);
    // 763 / 3 = 254.33..., 1 / 3 = 0.33...
    assert_eq!(pixels, vec![pixel(254, 0, 0); 3]);
}

#[test]
fn shading_the_same_picture_twice_gives_the_same_result() {
    let config = Config::new(sample_thresholds(), 2, LevelMode::Value { chunks: 4 });
    let mut first = sample_picture();
    let mut second = sample_picture();
    cel_shade(&mut first, &config);
    cel_shade(&mut second, &config);
    assert_eq!(first, second);
    let same_settings = Config::new(
        vec![330_000_000, 90_000_000, 210_000_000],
        2,
        LevelMode::Value { chunks: 4 },
    );
    let mut third = sample_picture();
    cel_shade(&mut third, &same_settings);
    assert_eq!(first, third);
}

#[test]
fn pixels_of_one_cell_share_their_colour_after_shading() {
    let config = Config::new(vec![120_000_000, 240_000_000], 2, LevelMode::Value { chunks: 2 });
    let mut picture: Vec<Pixel> = Vec::new();
    let mut seed: u32 = 12345;
    for _ in 0..500 {
        seed = seed.wrapping_mul(1_664_525).wrapping_add(1_013_904_223);
        picture.push(pixel((seed >> 24) as u8, (seed >> 16) as u8, (seed >> 8) as u8));
    }
    let mut shaded = picture.clone();
    cel_shade(&mut shaded, &config);
    assert_eq!(shaded.len(), picture.len());
    for i in 0..picture.len() {
        for j in 0..picture.len() {
            if cell_index(&picture[i], &config) == cell_index(&picture[j], &config) {
                assert_eq!(shaded[i], shaded[j]);
            }
        }
    }
}

#[test]
fn shading_a_settled_picture_again_changes_nothing() {
    let config = Config::new(sample_thresholds(), 2, LevelMode::Value { chunks: 4 });
    let mut once = sample_picture();
    cel_shade(&mut once, &config);
    // No two differently coloured pixels of the result share a cell.
    for i in 0..once.len() {
        for j in 0..once.len() {
            if cell_index(&once[i], &config) == cell_index(&once[j], &config) {
                assert_eq!(once[i], once[j]);
            }
        }
    }
    let mut twice = once.clone();
    cel_shade(&mut twice, &config);
    assert_eq!(twice, once);
}

#[test]
fn means_that_land_in_one_cell_are_averaged_again() {
    let config = Config::new(Vec::new(), 1, LevelMode::Value { chunks: 1 });
    let mut pixels = vec![pixel(255, 0, 0), pixel(0, 255, 255), pixel(10, 10, 10)];
    cel_shade(&mut pixels, &config);
    assert_eq!(pixels, vec![pixel(127, 127, 127), pixel(127, 127, 127), pixel(10, 10, 10)]);
    cel_shade(&mut pixels, &config);
    assert_eq!(pixels, vec![pixel(88, 88, 88); 3]);
    cel_shade(&mut pixels, &config);
    assert_eq!(pixels, vec![pixel(88, 88, 88); 3]);
}

#[test]
fn repaint_uses_the_means_of_the_table() {
    let config = Config::new(sample_thresholds(), 2, LevelMode::Value { chunks: 4 });
    let mut pixels = sample_picture();
    let table = accumulate(&pixels, &config);
    assert_eq!(pixels, sample_picture());
    repaint(&mut pixels, &table, &config);
    let mut shaded = sample_picture();
    cel_shade(&mut shaded, &config);
    assert_eq!(pixels, shaded);
}

#[test]
fn repaint_leaves_a_pixel_whose_cell_is_not_in_the_table() {
    let config = Config::new(Vec::new(), 1, LevelMode::Value { chunks: 1 });
    let table = accumulate(&vec![pixel(255, 0, 0)], &config);
    let mut pixels = vec![pixel(200, 0, 0), pixel(255, 255, 0)];
    repaint(&mut pixels, &table, &config);
    assert_eq!(pixels, vec![pixel(200, 0, 0), pixel(255, 0, 0)]);
}

#[test]
fn order_of_the_pixels_does_not_change_their_colours() {
    let config = Config::new(sample_thresholds(), 2, LevelMode::Value { chunks: 4 });
    let mut forward = sample_picture();
    let mut backward = sample_picture();
    backward.reverse();
    cel_shade(&mut forward, &config);
    cel_shade(&mut backward, &config);
    backward.reverse();
    assert_eq!(forward, backward);
}
