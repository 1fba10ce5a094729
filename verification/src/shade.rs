use crate::bucket::{cell_index, cell_of, CellIndex, Config, ConfigView};
use crate::color::Pixel;
use crate::table::{accumulate, lemma_tally_counts_members, tally, tally_map, CellTable, Tally};
use vstd::prelude::*;

verus! {

/// The colour that the second pass gives a pixel: the mean of its cell in
/// the table, or the pixel itself where the table does not hold the cell.
pub open spec fn repainted_pixel(pixel: Pixel, table: Map<CellIndex, Tally>, config: ConfigView)
    -> Pixel {
    let cell = cell_of(pixel, config);
    if table.contains_key(cell) {
        table[cell].mean()
    } else {
        pixel
    }
}

/// The pixels after the second pass over them with a given table.
pub open spec fn repainted(pixels: Seq<Pixel>, table: Map<CellIndex, Tally>, config: ConfigView)
    -> Seq<Pixel> {
    Seq::new(pixels.len(), |i: int| repainted_pixel(pixels[i], table, config))
}

/// The cel-shaded picture: every pixel replaced by the mean colour of the
/// pixels that share its cell.
pub open spec fn shaded(pixels: Seq<Pixel>, config: ConfigView) -> Seq<Pixel> {
    Seq::new(
        pixels.len(),
        |i: int| tally(pixels, config, cell_of(pixels[i], config)).mean(),
    )
}

/// Repainting with the table of the very same pixels is cel shading: the
/// table holds the cell of every pixel.
pub proof fn lemma_repainted_with_own_table(pixels: Seq<Pixel>, config: ConfigView)
    ensures
        repainted(pixels, tally_map(pixels, config), config) == shaded(pixels, config),
{
    let table = tally_map(pixels, config);
    assert forall|i: int| 0 <= i < pixels.len() implies repainted_pixel(pixels[i], table, config)
        == tally(pixels, config, cell_of(pixels[i], config)).mean() by {
        let cell = cell_of(pixels[i], config);
        lemma_tally_counts_members(pixels, config, cell);
        assert(cell_of(pixels[i], config) == cell);
    }
    assert(repainted(pixels, table, config) =~= shaded(pixels, config));
}

/// The second pass: overwrites each pixel with the mean colour that the
/// table holds for the pixel's cell. The table is only read. A pixel whose
/// cell the table does not hold keeps its colour; with the table of these
/// same pixels there is no such pixel.
pub fn repaint(pixels: &mut Vec<Pixel>, table: &CellTable, config: &Config)
    ensures
        final(pixels)@ == repainted(old(pixels)@, table@, config@),
        final(pixels).len() == old(pixels).len(),
{
    let ghost before = pixels@;
    let mut done: usize = 0;
    while done < pixels.len()
        invariant
            done <= pixels.len(),
            pixels.len() == before.len(),
            forall|j: int|
                0 <= j < done ==> #[trigger] pixels[j] == repainted_pixel(
                    before[j],
                    table@,
                    config@,
                ),
            forall|j: int| done <= j < pixels.len() ==> #[trigger] pixels[j] == before[j],
        decreases pixels.len() - done,
    {
        let pixel: Pixel = pixels[done];
        let cell = cell_index(&pixel, config);
        match table.mean(&cell) {
            Some(colour) => {
                pixels[done] = colour;
            },
            None => {},
        }
        done += 1;
    }
    assert(pixels@ =~= repainted(before, table@, config@));
}

/// Cel-shades the pixels in place: tallies every cell in a first pass, then
/// overwrites every pixel with the mean colour of its cell in a second one.
pub fn cel_shade(pixels: &mut Vec<Pixel>, config: &Config)
    ensures
        final(pixels)@ == shaded(old(pixels)@, config@),
        final(pixels).len() == old(pixels).len(),
{
    let table = accumulate(pixels, config);
    proof {
        lemma_repainted_with_own_table(pixels@, config@);
    }
    repaint(pixels, &table, config);
}

} // verus!
