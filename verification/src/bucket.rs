use crate::color::{luminance, Hsv, Pixel, Ratio};
use vstd::prelude::*;

verus! {

broadcast use vstd::seq_lib::group_to_multiset_ensures;

/// The cell of colour space that a pixel falls into: one bucket number for
/// each of hue, saturation and the level (value or luminance).
#[derive(Clone, Copy, Debug, PartialEq, Eq, Structural, Hash)]
pub struct CellIndex {
    pub hue: usize,
    pub saturation: usize,
    pub level: usize,
}

/// Which scalar feeds the third bucket, and into how many chunks its range is
/// cut.
#[derive(Clone, Copy, Debug, PartialEq, Eq, Structural, Hash)]
pub enum LevelMode {
    /// Bucket by the value of the pixel.
    Value { chunks: usize },
    /// Bucket by the relative luminance of the pixel.
    Luminance { chunks: usize },
}

/// Why no configuration could be made.
#[derive(Clone, Copy, Debug, PartialEq, Eq, Structural, Hash)]
pub enum ConfigError {
    /// Neither a value chunk count nor a luminance chunk count was given.
    MissingLevelChunks,
}

/// What a configuration says, as mathematical values.
pub struct ConfigView {
    /// The hue thresholds in millionths of a degree, in ascending order.
    pub thresholds: Seq<i64>,
    /// The number of chunks of the saturation range.
    pub saturation_chunks: usize,
    /// The level scalar and its number of chunks.
    pub level: LevelMode,
}

/// The settings of one run: hue thresholds in millionths of a degree, kept
/// in ascending order, the number of saturation chunks, and the level mode
/// with its number of chunks.
pub struct Config {
    hue_thresholds: Vec<i64>,
    saturation_chunks: usize,
    level: LevelMode,
}

/// Each element is at most the ones after it.
pub open spec fn ascending(s: Seq<i64>) -> bool {
    forall|i: int, j: int| 0 <= i <= j < s.len() ==> s[i] <= s[j]
}

/// The number of thresholds that `hue` has reached: those at or below it.
pub open spec fn count_at_most(thresholds: Seq<i64>, hue: int) -> nat
    decreases thresholds.len(),
{
    if thresholds.len() == 0 {
        0
    } else {
        count_at_most(thresholds.drop_last(), hue) + if thresholds.last() <= hue {
            1nat
        } else {
            0nat
        }
    }
}

/// The chunk that a level falls into when the unit interval is cut into
/// `chunks` equal parts: `floor(level * chunks)`, which is the level in
/// percent divided by the width `100 / chunks` of a chunk, rounded down. The
/// top of the range gets a chunk of its own, so the result runs from 0 to
/// `chunks` inclusive. With no chunks at all every level is in chunk 0.
pub open spec fn chunk_of(level: Ratio, chunks: int) -> int {
    (level.num * chunks) / (level.den as int)
}

/// The cell selected by a hue and two levels under a configuration.
pub open spec fn bucket_of(hue: int, saturation: Ratio, level: Ratio, config: ConfigView)
    -> CellIndex {
    CellIndex {
        hue: count_at_most(config.thresholds, hue) as usize,
        saturation: chunk_of(saturation, config.saturation_chunks as int) as usize,
        level: chunk_of(level, config.level.chunks() as int) as usize,
    }
}

/// The scalar of a pixel that the mode selects.
pub open spec fn level_of(pixel: Pixel, mode: LevelMode) -> Ratio {
    match mode {
        LevelMode::Value { .. } => pixel.value(),
        LevelMode::Luminance { .. } => pixel.luminance(),
    }
}

/// The cell that a pixel falls into under a configuration.
pub open spec fn cell_of(pixel: Pixel, config: ConfigView) -> CellIndex {
    bucket_of(pixel.hue(), pixel.saturation(), level_of(pixel, config.level), config)
}

/// In an ascending list the thresholds at or below `hue` are exactly the
/// leading ones, so their number is the position of the first larger one.
pub proof fn lemma_count_in_ascending(thresholds: Seq<i64>, hue: int, index: int)
    requires
        ascending(thresholds),
        0 <= index <= thresholds.len(),
        forall|j: int| 0 <= j < index ==> thresholds[j] <= hue,
        index < thresholds.len() ==> thresholds[index] > hue,
    ensures
        count_at_most(thresholds, hue) == index,
    decreases thresholds.len(),
{
    if thresholds.len() > 0 {
        let front = thresholds.drop_last();
        if index == thresholds.len() {
            lemma_count_in_ascending(front, hue, index - 1);
        } else {
            lemma_count_in_ascending(front, hue, index);
        }
    }
}

/// A list of thresholds has only one ascending order: the order in which the
/// thresholds are given makes no difference to a configuration.
pub proof fn lemma_ascending_order_is_unique(a: Seq<i64>, b: Seq<i64>)
    requires
        ascending(a),
        ascending(b),
        a.to_multiset() == b.to_multiset(),
    ensures
        a == b,
{
    let at_most = |x: i64, y: i64| x <= y;
    assert(vstd::relations::sorted_by(a, at_most));
    assert(vstd::relations::sorted_by(b, at_most));
    assert(vstd::relations::total_ordering(at_most));
    vstd::seq_lib::lemma_sorted_unique(a, b, at_most);
}

/// No more thresholds can be reached than there are.
pub proof fn lemma_count_bounded(thresholds: Seq<i64>, hue: int)
    ensures
        count_at_most(thresholds, hue) <= thresholds.len(),
    decreases thresholds.len(),
{
    if thresholds.len() > 0 {
        lemma_count_bounded(thresholds.drop_last(), hue);
    }
}

/// A level of the unit interval falls into one of the chunks `0..=chunks`.
pub proof fn lemma_chunk_bounded(level: Ratio, chunks: int)
    requires
        level.is_unit(),
        0 <= chunks,
    ensures
        0 <= chunk_of(level, chunks) <= chunks,
{
    let n = level.num as int;
    let d = level.den as int;
    assert(0 <= (n * chunks) / d <= chunks) by (nonlinear_arith)
        requires
            0 <= n <= d,
            0 < d,
            0 <= chunks,
    ;
}

/// The hue bucket: the number of leading thresholds that `hue` has reached,
/// a threshold equal to the hue counting as reached. For thresholds in
/// ascending order this is the number of all thresholds at or below the hue.
pub fn get_hue_index(hue: i64, thresholds: &Vec<i64>) -> (index: usize)
    ensures
        index <= thresholds.len(),
        forall|j: int| 0 <= j < index ==> thresholds[j] <= hue,
        index < thresholds.len() ==> thresholds[index as int] > hue,
        ascending(thresholds@) ==> index == count_at_most(thresholds@, hue as int),
{
    let mut index: usize = 0;
    while index < thresholds.len() && hue >= thresholds[index]
        invariant
            index <= thresholds.len(),
            forall|j: int| 0 <= j < index ==> thresholds[j] <= hue,
        decreases thresholds.len() - index,
    {
        index += 1;
    }
    proof {
        if ascending(thresholds@) {
            lemma_count_in_ascending(thresholds@, hue as int, index as int);
        }
    }
    index
}

/// The chunk of a level: `floor(level * chunks)`, from 0 to `chunks`
/// inclusive. Only the full level lands in chunk number `chunks`.
pub fn chunk_index(level: Ratio, chunks: usize) -> (index: usize)
    requires
        level.is_unit(),
    ensures
        index == chunk_of(level, chunks as int),
        index <= chunks,
{
    proof {
        lemma_chunk_bounded(level, chunks as int);
        assert(level.num * chunks <= 0xffff_ffff * 0xffff_ffff_ffff_ffff) by (nonlinear_arith)
            requires
                level.num <= 0xffff_ffff,
                chunks <= 0xffff_ffff_ffff_ffff,
        ;
    }
    let scaled: u128 = (level.num as u128) * (chunks as u128);
    (scaled / (level.den as u128)) as usize
}

/// The thresholds in ascending order.
pub fn sorted_thresholds(thresholds: &Vec<i64>) -> (sorted: Vec<i64>)
    ensures
        ascending(sorted@),
        sorted@.to_multiset() == thresholds@.to_multiset(),
        sorted.len() == thresholds.len(),
{
    let mut sorted: Vec<i64> = Vec::new();
    let mut taken: usize = 0;
    while taken < thresholds.len()
        invariant
            taken <= thresholds.len(),
            ascending(sorted@),
            sorted@.to_multiset() == thresholds@.take(taken as int).to_multiset(),
            sorted.len() == taken,
        decreases thresholds.len() - taken,
    {
        let threshold: i64 = thresholds[taken];
        let place: usize = get_hue_index(threshold, &sorted);
        proof {
            assert(thresholds@.take(taken + 1) == thresholds@.take(taken as int).push(threshold));
            let after = sorted@.insert(place as int, threshold);
            assert forall|i: int, j: int| 0 <= i <= j < after.len() implies after[i] <= after[j] by {
                if i < place && j > place {
                    assert(sorted@[i] <= sorted@[j - 1]);
                } else if i > place {
                    assert(sorted@[i - 1] <= sorted@[j - 1]);
                    assert(sorted@[place as int] <= sorted@[i - 1]);
                }
            }
        }
        sorted.insert(place, threshold);
        taken += 1;
    }
    proof {
        assert(thresholds@.take(taken as int) == thresholds@);
    }
    sorted
}

impl LevelMode {
    /// The number of chunks of the level, whichever scalar is chosen.
    pub open spec fn chunks(self) -> usize {
        match self {
            LevelMode::Value { chunks } => chunks,
            LevelMode::Luminance { chunks } => chunks,
        }
    }

    /// Chooses the mode from the two optional chunk counts. A value chunk
    /// count wins over a luminance chunk count; with neither there is no
    /// mode.
    pub fn from_chunk_counts(value_chunks: Option<usize>, luminance_chunks: Option<usize>) -> (mode:
        Result<LevelMode, ConfigError>)
        ensures
            mode == match (value_chunks, luminance_chunks) {
                (Some(chunks), _) => Ok::<LevelMode, ConfigError>(LevelMode::Value { chunks }),
                (None, Some(chunks)) => Ok(LevelMode::Luminance { chunks }),
                (None, None) => Err(ConfigError::MissingLevelChunks),
            },
    {
        match value_chunks {
            Some(chunks) => Ok(LevelMode::Value { chunks }),
            None => match luminance_chunks {
                Some(chunks) => Ok(LevelMode::Luminance { chunks }),
                None => Err(ConfigError::MissingLevelChunks),
            },
        }
    }

    /// The number of chunks of the level.
    pub fn chunk_count(&self) -> (chunks: usize)
        ensures
            chunks == self.chunks(),
    {
        match self {
            LevelMode::Value { chunks } => *chunks,
            LevelMode::Luminance { chunks } => *chunks,
        }
    }
}

impl View for Config {
    type V = ConfigView;

    closed spec fn view(&self) -> ConfigView {
        ConfigView {
            thresholds: self.hue_thresholds@,
            saturation_chunks: self.saturation_chunks,
            level: self.level,
        }
    }
}

impl Config {
    #[verifier::type_invariant]
    spec fn thresholds_ascend(self) -> bool {
        ascending(self.hue_thresholds@)
    }

    /// A configuration with the given hue thresholds, each in millionths of
    /// a degree, put in ascending order. The order in which they are given
    /// makes no difference.
    pub fn new(hue_thresholds: Vec<i64>, saturation_chunks: usize, level: LevelMode) -> (config:
        Config)
        ensures
            ascending(config@.thresholds),
            config@.thresholds.to_multiset() == hue_thresholds@.to_multiset(),
            config@.thresholds.len() == hue_thresholds.len(),
            config@.saturation_chunks == saturation_chunks,
            config@.level == level,
    {
        let sorted = sorted_thresholds(&hue_thresholds);
        Config { hue_thresholds: sorted, saturation_chunks, level }
    }

    /// The hue thresholds, in ascending order.
    pub fn hue_thresholds(&self) -> (thresholds: &Vec<i64>)
        ensures
            thresholds@ == self@.thresholds,
            ascending(thresholds@),
    {
        proof {
            use_type_invariant(self);
        }
        &self.hue_thresholds
    }

    /// The number of saturation chunks.
    pub fn saturation_chunks(&self) -> (chunks: usize)
        ensures
            chunks == self@.saturation_chunks,
    {
        self.saturation_chunks
    }

    /// The level mode.
    pub fn level(&self) -> (level: LevelMode)
        ensures
            level == self@.level,
    {
        self.level
    }
}

/// The cell selected by a hue in millionths of a degree, a saturation and a
/// level (value or luminance, as the configuration says).
pub fn bucket(hue: u32, saturation: Ratio, level: Ratio, config: &Config) -> (cell: CellIndex)
    requires
        saturation.is_unit(),
        level.is_unit(),
    ensures
        cell == bucket_of(hue as int, saturation, level, config@),
        cell.hue == count_at_most(config@.thresholds, hue as int),
        cell.hue <= config@.thresholds.len(),
        cell.saturation == chunk_of(saturation, config@.saturation_chunks as int),
        cell.saturation <= config@.saturation_chunks,
        cell.level == chunk_of(level, config@.level.chunks() as int),
        cell.level <= config@.level.chunks(),
{
    let thresholds = config.hue_thresholds();
    CellIndex {
        hue: get_hue_index(hue as i64, thresholds),
        saturation: chunk_index(saturation, config.saturation_chunks()),
        level: chunk_index(level, config.level().chunk_count()),
    }
}

/// The cell that a pixel falls into.
pub fn cell_index(pixel: &Pixel, config: &Config) -> (cell: CellIndex)
    ensures
        cell == cell_of(*pixel, config@),
        cell.hue == count_at_most(config@.thresholds, pixel.hue()),
        cell.hue <= config@.thresholds.len(),
        cell.saturation <= config@.saturation_chunks,
        cell.level <= config@.level.chunks(),
{
    let hsv = Hsv::from_pixel(pixel);
    let level = match config.level() {
        LevelMode::Value { .. } => hsv.value,
        LevelMode::Luminance { .. } => luminance(pixel),
    };
    bucket(hsv.hue, hsv.saturation, level, config)
}

} // verus!
