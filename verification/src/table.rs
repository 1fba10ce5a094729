use crate::bucket::{cell_index, cell_of, lemma_count_bounded, CellIndex, Config, ConfigView};
use crate::color::Pixel;
use std::collections::HashMap;
use vstd::prelude::*;

verus! {

broadcast use vstd::std_specs::hash::group_hash_axioms;

/// The running sums of one cell as mathematical values: the sum of each
/// channel over the pixels of the cell, and their number.
pub struct Tally {
    pub red: nat,
    pub green: nat,
    pub blue: nat,
    pub count: nat,
}

impl Tally {
    /// The tally of no pixel.
    pub open spec fn empty() -> Tally {
        Tally { red: 0, green: 0, blue: 0, count: 0 }
    }

    /// The tally with one more pixel counted.
    pub open spec fn plus(self, pixel: Pixel) -> Tally {
        Tally {
            red: self.red + pixel.red as nat,
            green: self.green + pixel.green as nat,
            blue: self.blue + pixel.blue as nat,
            count: self.count + 1,
        }
    }

    /// The two tallies added up: the tally of two groups of pixels taken
    /// together.
    pub open spec fn merged(self, other: Tally) -> Tally {
        Tally {
            red: self.red + other.red,
            green: self.green + other.green,
            blue: self.blue + other.blue,
            count: self.count + other.count,
        }
    }

    /// The mean colour: each channel sum divided by the count, rounded down.
    pub open spec fn mean(self) -> Pixel {
        Pixel {
            red: (self.red / self.count) as u8,
            green: (self.green / self.count) as u8,
            blue: (self.blue / self.count) as u8,
        }
    }

    /// A tally of at least one pixel whose sums are sums of bytes.
    pub open spec fn is_sum_of_bytes(self) -> bool {
        &&& 0 < self.count
        &&& self.red <= 255 * self.count
        &&& self.green <= 255 * self.count
        &&& self.blue <= 255 * self.count
    }
}

/// The tally of a cell over a sequence of pixels: the sums and the number of
/// those pixels that fall into the cell.
pub open spec fn tally(pixels: Seq<Pixel>, config: ConfigView, cell: CellIndex) -> Tally
    decreases pixels.len(),
{
    if pixels.len() == 0 {
        Tally::empty()
    } else {
        let rest = tally(pixels.drop_last(), config, cell);
        if cell_of(pixels.last(), config) == cell {
            rest.plus(pixels.last())
        } else {
            rest
        }
    }
}

/// The table of one run: each cell that holds a pixel, with its tally.
pub open spec fn tally_map(pixels: Seq<Pixel>, config: ConfigView) -> Map<CellIndex, Tally> {
    Map::new(
        |cell: CellIndex| tally(pixels, config, cell).count > 0,
        |cell: CellIndex| tally(pixels, config, cell),
    )
}

/// A tally counts no more pixels than there are, and its sums are sums of
/// bytes.
pub proof fn lemma_tally_bounded(pixels: Seq<Pixel>, config: ConfigView, cell: CellIndex)
    ensures
        tally(pixels, config, cell).count <= pixels.len(),
        tally(pixels, config, cell).red <= 255 * tally(pixels, config, cell).count,
        tally(pixels, config, cell).green <= 255 * tally(pixels, config, cell).count,
        tally(pixels, config, cell).blue <= 255 * tally(pixels, config, cell).count,
    decreases pixels.len(),
{
    if pixels.len() > 0 {
        lemma_tally_bounded(pixels.drop_last(), config, cell);
    }
}

/// The tally of two runs of pixels joined is the sum of their tallies, so a
/// picture may be tallied in parts.
pub proof fn lemma_tally_of_parts(
    first: Seq<Pixel>,
    second: Seq<Pixel>,
    config: ConfigView,
    cell: CellIndex,
)
    ensures
        tally(first + second, config, cell) == tally(first, config, cell).merged(
            tally(second, config, cell),
        ),
    decreases second.len(),
{
    if second.len() == 0 {
        assert(first + second =~= first);
    } else {
        assert((first + second).drop_last() =~= first + second.drop_last());
        lemma_tally_of_parts(first, second.drop_last(), config, cell);
    }
}

/// Taking one pixel out of the sequence takes it out of the tally of its
/// cell and leaves the other tallies alone.
pub proof fn lemma_tally_without(pixels: Seq<Pixel>, at: int, config: ConfigView, cell: CellIndex)
    requires
        0 <= at < pixels.len(),
    ensures
        tally(pixels, config, cell) == if cell_of(pixels[at], config) == cell {
            tally(pixels.remove(at), config, cell).plus(pixels[at])
        } else {
            tally(pixels.remove(at), config, cell)
        },
{
    let front = pixels.take(at);
    let one = seq![pixels[at]];
    let back = pixels.skip(at + 1);
    assert(pixels =~= (front + one) + back);
    assert(pixels.remove(at) =~= front + back);
    assert((front + one).drop_last() =~= front);
    lemma_tally_of_parts(front + one, back, config, cell);
    lemma_tally_of_parts(front, back, config, cell);
}

/// The tally of a cell does not depend on the order of the pixels: two
/// sequences with the same pixels, each as often, have the same tallies.
pub proof fn lemma_tally_ignores_order(
    one: Seq<Pixel>,
    other: Seq<Pixel>,
    config: ConfigView,
    cell: CellIndex,
)
    requires
        one.to_multiset() == other.to_multiset(),
    ensures
        tally(one, config, cell) == tally(other, config, cell),
    decreases one.len(),
{
    broadcast use vstd::seq_lib::group_to_multiset_ensures;

    assert(one.len() == one.to_multiset().len() == other.len());
    if one.len() > 0 {
        let last = one.last();
        assert(one[one.len() - 1] == last);
        assert(one.contains(last));
        assert(other.to_multiset().count(last) > 0);
        assert(other.contains(last));
        let at = choose|at: int| 0 <= at < other.len() && other[at] == last;
        assert(one.drop_last() =~= one.remove(one.len() - 1));
        lemma_tally_ignores_order(one.drop_last(), other.remove(at), config, cell);
        lemma_tally_without(other, at, config, cell);
    }
}

/// A cell counts a pixel exactly when some pixel of the sequence falls into
/// it.
pub proof fn lemma_tally_counts_members(pixels: Seq<Pixel>, config: ConfigView, cell: CellIndex)
    ensures
        tally(pixels, config, cell).count > 0 <==> exists|i: int|
            0 <= i < pixels.len() && cell_of(#[trigger] pixels[i], config) == cell,
    decreases pixels.len(),
{
    if pixels.len() > 0 {
        let front = pixels.drop_last();
        lemma_tally_counts_members(front, config, cell);
        if cell_of(pixels.last(), config) == cell {
            assert(cell_of(pixels[pixels.len() - 1], config) == cell);
        } else if tally(pixels, config, cell).count > 0 {
            let i = choose|i: int| 0 <= i < front.len() && cell_of(#[trigger] front[i], config) == cell;
            assert(cell_of(pixels[i], config) == cell);
        } else {
            assert forall|i: int| 0 <= i < pixels.len() implies cell_of(
                #[trigger] pixels[i],
                config,
            ) != cell by {
                if i < front.len() {
                    assert(front[i] == pixels[i]);
                }
            }
        }
    }
}

/// The sums and the count of the pixels of one cell. There is at least one
/// pixel behind every value of this type.
#[derive(Clone, Copy, Debug)]
pub struct CellStats {
    red: u128,
    green: u128,
    blue: u128,
    count: usize,
}

impl View for CellStats {
    type V = Tally;

    closed spec fn view(&self) -> Tally {
        Tally {
            red: self.red as nat,
            green: self.green as nat,
            blue: self.blue as nat,
            count: self.count as nat,
        }
    }
}

impl CellStats {
    #[verifier::type_invariant]
    spec fn sums_bytes(self) -> bool {
        self@.is_sum_of_bytes()
    }

    /// The statistics of a cell that holds one pixel.
    pub(crate) fn first(pixel: &Pixel) -> (stats: CellStats)
        ensures
            stats@ == Tally::empty().plus(*pixel),
    {
        CellStats {
            red: pixel.red as u128,
            green: pixel.green as u128,
            blue: pixel.blue as u128,
            count: 1,
        }
    }

    /// The statistics with one more pixel counted.
    pub(crate) fn plus(&self, pixel: &Pixel) -> (stats: CellStats)
        requires
            self@.count < usize::MAX,
        ensures
            stats@ == self@.plus(*pixel),
    {
        proof {
            use_type_invariant(self);
        }
        CellStats {
            red: self.red + pixel.red as u128,
            green: self.green + pixel.green as u128,
            blue: self.blue + pixel.blue as u128,
            count: self.count + 1,
        }
    }

    /// The number of pixels in the cell: never zero.
    pub fn count(&self) -> (count: usize)
        ensures
            count == self@.count,
            count > 0,
    {
        proof {
            use_type_invariant(self);
        }
        self.count
    }

    /// The sum of the red channel over the cell.
    pub fn red_sum(&self) -> (sum: u128)
        ensures
            sum == self@.red,
            sum <= 255 * self@.count,
    {
        proof {
            use_type_invariant(self);
        }
        self.red
    }

    /// The sum of the green channel over the cell.
    pub fn green_sum(&self) -> (sum: u128)
        ensures
            sum == self@.green,
            sum <= 255 * self@.count,
    {
        proof {
            use_type_invariant(self);
        }
        self.green
    }

    /// The sum of the blue channel over the cell.
    pub fn blue_sum(&self) -> (sum: u128)
        ensures
            sum == self@.blue,
            sum <= 255 * self@.count,
    {
        proof {
            use_type_invariant(self);
        }
        self.blue
    }

    /// The mean colour of the cell: each channel sum divided by the count,
    /// rounded down.
    pub fn mean(&self) -> (mean: Pixel)
        ensures
            mean == self@.mean(),
    {
        proof {
            use_type_invariant(self);
            lemma_mean_is_byte(self@.red, self@.count);
            lemma_mean_is_byte(self@.green, self@.count);
            lemma_mean_is_byte(self@.blue, self@.count);
        }
        let count: u128 = self.count as u128;
        Pixel {
            red: (self.red / count) as u8,
            green: (self.green / count) as u8,
            blue: (self.blue / count) as u8,
        }
    }
}

/// The mean of `count` bytes is a byte.
pub proof fn lemma_mean_is_byte(sum: nat, count: nat)
    by (nonlinear_arith)
    requires
        0 < count,
        sum <= 255 * count,
    ensures
        0 <= sum / count <= 255,
{
}

/// The cell table of one run: the statistics of every cell that holds at
/// least one pixel. It is built once by `accumulate` and only read after.
pub struct CellTable {
    slots: Vec<HashMap<u128, CellStats>>,
}

/// The key of a cell within the map of its hue bucket.
spec fn slot_key(saturation: usize, level: usize) -> u128 {
    (saturation * 0x1_0000_0000_0000_0000 + level) as u128
}

fn make_slot_key(saturation: usize, level: usize) -> (key: u128)
    ensures
        key == slot_key(saturation, level),
{
    (saturation as u128) * 0x1_0000_0000_0000_0000u128 + (level as u128)
}

/// The maps hold, under the key of each cell, the tally of the cell over
/// `pixels`, and no cell without a pixel.
spec fn slots_hold(
    slots: Seq<HashMap<u128, CellStats>>,
    pixels: Seq<Pixel>,
    config: ConfigView,
) -> bool {
    forall|cell: CellIndex|
        #![trigger tally(pixels, config, cell)]
        cell.hue < slots.len() ==> {
            let key = slot_key(cell.saturation, cell.level);
            let counted = tally(pixels, config, cell);
            &&& slots[cell.hue as int]@.contains_key(key) <==> counted.count > 0
            &&& counted.count > 0 ==> slots[cell.hue as int]@[key]@ == counted
        }
}

impl View for CellTable {
    type V = Map<CellIndex, Tally>;

    closed spec fn view(&self) -> Map<CellIndex, Tally> {
        Map::new(
            |cell: CellIndex|
                cell.hue < self.slots.len() && self.slots[cell.hue as int]@.contains_key(
                    slot_key(cell.saturation, cell.level),
                ),
            |cell: CellIndex| self.slots[cell.hue as int]@[slot_key(cell.saturation, cell.level)]@,
        )
    }
}

impl CellTable {
    /// The statistics of a cell, if the cell holds a pixel.
    pub fn get(&self, cell: &CellIndex) -> (stats: Option<CellStats>)
        ensures
            stats.is_some() <==> self@.contains_key(*cell),
            stats matches Some(found) ==> found@ == self@[*cell],
    {
        if cell.hue < self.slots.len() {
            let key: u128 = make_slot_key(cell.saturation, cell.level);
            match self.slots[cell.hue].get(&key) {
                Some(found) => Some(*found),
                None => None,
            }
        } else {
            None
        }
    }

    /// The mean colour of a cell, if the cell holds a pixel.
    pub fn mean(&self, cell: &CellIndex) -> (mean: Option<Pixel>)
        ensures
            mean.is_some() <==> self@.contains_key(*cell),
            mean matches Some(colour) ==> colour == self@[*cell].mean(),
    {
        match self.get(cell) {
            Some(found) => Some(found.mean()),
            None => None,
        }
    }
}

/// The first pass: goes through the pixels once and tallies, for each cell,
/// the channel sums and the number of the pixels that fall into it. The
/// pixels are left as they are.
pub fn accumulate(pixels: &Vec<Pixel>, config: &Config) -> (table: CellTable)
    ensures
        table@ == tally_map(pixels@, config@),
{
    let bands: usize = config.hue_thresholds().len();
    let mut slots: Vec<HashMap<u128, CellStats>> = Vec::new();
    slots.push(HashMap::new());
    while slots.len() <= bands
        invariant
            0 < slots.len() <= bands + 1,
            forall|band: int| 0 <= band < slots.len() ==> (#[trigger] slots[band])@ == Map::<
                u128,
                CellStats,
            >::empty(),
        decreases bands + 1 - slots.len(),
    {
        slots.push(HashMap::new());
    }
    let mut done: usize = 0;
    while done < pixels.len()
        invariant
            done <= pixels.len(),
            slots.len() == bands + 1,
            bands == config@.thresholds.len(),
            slots_hold(slots@, pixels@.take(done as int), config@),
        decreases pixels.len() - done,
    {
        let pixel: Pixel = pixels[done];
        let cell = cell_index(&pixel, config);
        let key: u128 = make_slot_key(cell.saturation, cell.level);
        let ghost before = pixels@.take(done as int);
        let ghost after = pixels@.take(done + 1);
        let ghost old_slots = slots@;
        proof {
            assert(after.drop_last() == before);
            assert(after.last() == pixel);
            lemma_tally_bounded(before, config@, cell);
            assert(tally(before, config@, cell).count <= done);
        }
        let updated = match slots[cell.hue].get(&key) {
            Some(found) => found.plus(&pixel),
            None => CellStats::first(&pixel),
        };
        slots[cell.hue].insert(key, updated);
        proof {
            assert(updated@ == tally(after, config@, cell));
            assert forall|other: CellIndex|
                #![trigger tally(after, config@, other)]
                other.hue < slots.len() implies {
                let other_key = slot_key(other.saturation, other.level);
                let counted = tally(after, config@, other);
                &&& slots@[other.hue as int]@.contains_key(other_key) <==> counted.count > 0
                &&& counted.count > 0 ==> slots@[other.hue as int]@[other_key]@ == counted
            } by {
                let was = tally(before, config@, other);
                if other != cell {
                    assert(tally(after, config@, other) == was);
                    if other.hue == cell.hue {
                        assert(slot_key(other.saturation, other.level) != key);
                    }
                }
            }
        }
        done += 1;
    }
    let table = CellTable { slots };
    proof {
        assert(pixels@.take(done as int) == pixels@);
        assert forall|cell: CellIndex| #[trigger]
            table@.contains_key(cell) <==> tally(pixels@, config@, cell).count > 0 by {
            let counted = tally(pixels@, config@, cell);
            if cell.hue >= table.slots.len() && counted.count > 0 {
                lemma_tally_counts_members(pixels@, config@, cell);
                let i = choose|i: int|
                    0 <= i < pixels@.len() && cell_of(#[trigger] pixels@[i], config@) == cell;
                lemma_count_bounded(config@.thresholds, pixels@[i].hue());
            }
        }
        assert(table@ =~= tally_map(pixels@, config@));
    }
    table
}

} // verus!
