//! Segmenting satellite images: stacking the bands of a tile into an image, and finding the class
//! of each pixel in the scores that a model gives.

use crate::float_bits::Real;
use crate::pixel::PixelValue;
use ndarray::{stack, Array2, Axis};
use vstd::prelude::*;

verus! {

/// The number of bands of an image.
pub const NUMBER_OF_BANDS: usize = 7;

/// The number of rows and of columns that are segmented.
pub const TILE_SIZE: usize = 512;

/// The number of classes.
pub const NUMBER_OF_CLASSES: usize = 3;

/// What a band has for a tile.
#[derive(Debug)]
pub enum BandTile {
    /// The tile could not be read.
    Failed,
    /// The tile has no data.
    Empty,
    /// The values of the tile, row by row.
    Grid { rows: usize, columns: usize, data: Vec<PixelValue> },
}

/// Images in a batch, with the values of the bands of each pixel next to each other.
#[derive(Debug)]
pub struct ImageBatch {
    pub images: usize,
    pub rows: usize,
    pub columns: usize,
    pub bands: usize,
    pub data: Vec<PixelValue>,
}

/// A length as a factor of a product that leaves out zeros.
pub open spec fn extent(length: usize) -> int {
    if length == 0 {
        1
    } else {
        length as int
    }
}

/// Whether an image of so many rows, columns and bands can be held in memory.
pub open spec fn fits(rows: usize, columns: usize, bands: nat) -> bool {
    extent(rows) * extent(columns) * bands * 32 <= isize::MAX
}

/// The values of bands, pixel by pixel.
pub open spec fn interleaved(bands: Seq<Seq<PixelValue>>, pixels: nat) -> Seq<PixelValue> {
    Seq::new(
        pixels * bands.len(),
        |k: int| bands[k % bands.len() as int][k / bands.len() as int],
    )
}

/// The contents of bands.
pub open spec fn band_views(bands: Seq<Vec<PixelValue>>) -> Seq<Seq<PixelValue>> {
    Seq::new(bands.len(), |i: int| bands[i]@)
}

/// `ndarray::stack` along a new last axis: of arrays with two axes of the given lengths, which
/// `ndarray::Array2::from_shape_vec` makes of the bands row by row, the element at a position of
/// the result is the one at the first two indices of that position in the array that the last
/// index tells. The elements come in the order of the indices, in which the last one varies
/// fastest. The bound on the size keeps both functions from failing.
#[verifier::external_body]
fn stack_bands(rows: usize, columns: usize, bands: Vec<Vec<PixelValue>>) -> (r: Vec<PixelValue>)
    requires
        bands@.len() > 0,
        forall|b: int| 0 <= b < bands@.len() ==> (#[trigger] bands@[b])@.len() == rows * columns,
        fits(rows, columns, bands@.len()),
    ensures
        r@ == interleaved(band_views(bands@), (rows * columns) as nat),
{
    let arrays: Vec<Array2<PixelValue>> = bands
        .into_iter()
        .map(|band| Array2::from_shape_vec((rows, columns), band).unwrap())
        .collect();
    let views: Vec<_> = arrays.iter().map(|array| array.view()).collect();
    stack(Axis(2), &views).unwrap().iter().copied().collect()
}

/// Whether every band has a grid for a tile.
pub open spec fn complete(tiles: Seq<BandTile>) -> bool {
    forall|i: int| 0 <= i < tiles.len() ==> #[trigger] tiles[i] is Grid
}

/// The contents of the grids of a tile.
pub open spec fn grids(tiles: Seq<BandTile>) -> Seq<Seq<PixelValue>> {
    Seq::new(tiles.len(), |i: int| tiles[i]->data@)
}

/// Takes the grids out of the bands, if every band has one.
fn take_grids(tiles: Vec<BandTile>) -> (r: Option<Vec<Vec<PixelValue>>>)
    ensures
        match r {
            Some(bands) => complete(tiles@) && band_views(bands@) == grids(tiles@),
            None => !complete(tiles@),
        },
{
    let ghost all = tiles@;
    let mut bands: Vec<Vec<PixelValue>> = Vec::new();
    for tile in it: tiles
        invariant
            it.seq() == all,
            bands@.len() == it.index(),
            forall|i: int| 0 <= i < it.index() ==> #[trigger] all[i] is Grid,
            forall|i: int| 0 <= i < it.index() ==> (#[trigger] bands@[i])@ == all[i]->data@,
    {
        match tile {
            BandTile::Grid { rows: _, columns: _, data } => bands.push(data),
            _ => {
                assert(!(all[it.index() as int] is Grid));
                return None;
            },
        }
    }
    assert(band_views(bands@) =~= grids(all));
    Some(bands)
}

/// The image of a tile, as a batch of one. It has the shape of the first band. Without a grid in
/// every band there is none.
pub fn image_batch(tiles: Vec<BandTile>) -> (r: Option<ImageBatch>)
    requires
        tiles@.len() == NUMBER_OF_BANDS,
        complete(tiles@) ==> {
            let rows = tiles@[0]->rows;
            let columns = tiles@[0]->columns;
            &&& fits(rows, columns, NUMBER_OF_BANDS as nat)
            &&& forall|i: int|
                0 <= i < tiles@.len() ==> (#[trigger] tiles@[i])->data@.len() == rows * columns
        },
    ensures
        match r {
            Some(batch) => {
                &&& complete(tiles@)
                &&& batch.images == 1
                &&& batch.rows == tiles@[0]->rows
                &&& batch.columns == tiles@[0]->columns
                &&& batch.bands == NUMBER_OF_BANDS
                &&& batch.data@ == interleaved(
                    grids(tiles@),
                    (batch.rows * batch.columns) as nat,
                )
            },
            None => !complete(tiles@),
        },
{
    let (rows, columns) = match &tiles[0] {
        BandTile::Grid { rows, columns, data: _ } => (*rows, *columns),
        _ => {
            return None;
        },
    };
    let ghost all = tiles@;
    match take_grids(tiles) {
        Some(bands) => {
            assert(band_views(bands@).len() == grids(all).len());
            assert forall|b: int| 0 <= b < bands@.len() implies (#[trigger] bands@[b])@.len() == rows
                * columns by {
                assert(band_views(bands@)[b] == grids(all)[b]);
                assert(all[b]->data@.len() == rows * columns);
            }
            let data = stack_bands(rows, columns, bands);
            Some(ImageBatch { images: 1, rows, columns, bands: NUMBER_OF_BANDS, data })
        },
        None => None,
    }
}

/// The value of a band at a pixel stands at that pixel of the image, at the place of the band.
pub proof fn law_image_holds_bands(
    bands: Seq<Seq<PixelValue>>,
    columns: nat,
    pixels: nat,
    row: int,
    column: int,
    band: int,
)
    requires
        0 <= row,
        0 <= column < columns,
        row * columns + column < pixels,
        0 <= band < bands.len(),
    ensures
        ({
            let pixel = row * columns + column;
            let k = pixel * bands.len() + band;
            &&& 0 <= k < interleaved(bands, pixels).len()
            &&& interleaved(bands, pixels)[k] == bands[band][pixel]
        }),
{
    let pixel = row * columns + column;
    let n = bands.len() as int;
    let k = pixel * n + band;
    assert(0 <= row * columns) by (nonlinear_arith)
        requires
            0 <= row,
            0 <= columns,
    ;
    assert(k < pixels * n) by (nonlinear_arith)
        requires
            k == pixel * n + band,
            pixel + 1 <= pixels,
            0 <= band < n,
    ;
    assert(0 <= pixel * n) by (nonlinear_arith)
        requires
            0 <= pixel,
            0 < n,
    ;
    vstd::arithmetic::div_mod::lemma_fundamental_div_mod_converse(k, n, pixel, band);
}

/// The scores of a model: for each pixel one score per class, row by row.
#[derive(Debug)]
pub struct Scores {
    pub rows: usize,
    pub columns: usize,
    pub classes: usize,
    pub data: Vec<Real>,
}

impl Scores {
    /// Whether there are as many scores as the lengths call for.
    pub open spec fn wf(&self) -> bool {
        self.data@.len() == self.rows * self.columns * self.classes
    }

    /// The score of a class at a pixel.
    pub open spec fn score(&self, row: int, column: int, class: int) -> Real {
        self.data@[(row * self.columns + column) * self.classes + class]
    }

    /// The scores of the classes at a pixel.
    pub open spec fn scores_at(&self, row: int, column: int) -> Seq<Real> {
        Seq::new(NUMBER_OF_CLASSES as nat, |class: int| self.score(row, column, class))
    }
}

/// Whether a score can decide: it is a number and not negative.
pub open spec fn decides(score: Real) -> bool {
    (Real { bits: 0 }).le_spec(score)
}

/// Whether a class is the one that scores tell: of those with the largest score that is not
/// negative the last one, and the first class of all if there is no such score.
pub open spec fn is_class(scores: Seq<Real>, class: int) -> bool {
    if exists|t: int| 0 <= t < scores.len() && decides(#[trigger] scores[t]) {
        &&& 0 <= class < scores.len()
        &&& decides(scores[class])
        &&& forall|t: int|
            0 <= t < scores.len() && decides(#[trigger] scores[t]) ==> scores[t].key()
                <= scores[class].key() && (t > class ==> scores[t].key() < scores[class].key())
    } else {
        class == 0
    }
}

/// Scores tell one class.
pub proof fn law_class_is_unique(scores: Seq<Real>, a: int, b: int)
    requires
        is_class(scores, a),
        is_class(scores, b),
    ensures
        a == b,
{
}

/// The class of a pixel.
fn class_of(scores: &Scores, row: usize, column: usize) -> (r: usize)
    requires
        scores.wf(),
        scores.classes >= NUMBER_OF_CLASSES,
        row < scores.rows,
        column < scores.columns,
    ensures
        is_class(scores.scores_at(row as int, column as int), r as int),
{
    let number_of_scores: usize = scores.data.len();
    let ghost at = scores.scores_at(row as int, column as int);
    let ghost pixel = row * scores.columns + column;
    assert((pixel + 1) * scores.classes <= scores.data@.len() && 0 <= row * scores.columns && 0
        <= pixel * scores.classes && pixel <= usize::MAX) by (nonlinear_arith)
        requires
            pixel == row * scores.columns + column,
            scores.data@.len() == scores.rows * scores.columns * scores.classes,
            row + 1 <= scores.rows,
            column + 1 <= scores.columns,
            scores.classes >= 1,
            scores.data@.len() <= usize::MAX,
            row >= 0,
            column >= 0,
    ;
    assert((pixel + 1) * scores.classes == pixel * scores.classes + scores.classes)
        by (nonlinear_arith);
    let start: usize = (row * scores.columns + column) * scores.classes;
    let mut max = Real::zero();
    let mut max_index: usize = 0;
    for t in 0..NUMBER_OF_CLASSES
        invariant
            start == (row * scores.columns + column) * scores.classes,
            start + scores.classes <= number_of_scores == scores.data@.len(),
            scores.classes >= NUMBER_OF_CLASSES,
            at == scores.scores_at(row as int, column as int),
            decides(max),
            forall|k: int| 0 <= k < t && decides(#[trigger] at[k]) ==> at[k].key() <= max.key(),
            (max_index < t && max == at[max_index as int] && forall|k: int|
                max_index < k < t && decides(#[trigger] at[k]) ==> at[k].key() < max.key()) || (
            max.bits == 0 && max_index == 0 && forall|k: int|
                0 <= k < t ==> !decides(#[trigger] at[k])),
    {
        assert(at[t as int] == scores.data@[start + t]);
        if max.less_or_equal(scores.data[start + t]) {
            max = scores.data[start + t];
            max_index = t;
        }
    }
    max_index
}

/// The classes of the pixels of a tile, row by row.
pub fn segment(scores: &Scores) -> (r: Vec<usize>)
    requires
        scores.wf(),
        scores.rows >= TILE_SIZE,
        scores.columns >= TILE_SIZE,
        scores.classes >= NUMBER_OF_CLASSES,
    ensures
        r@.len() == TILE_SIZE * TILE_SIZE,
        forall|row: int, column: int|
            0 <= row < TILE_SIZE && 0 <= column < TILE_SIZE ==> is_class(
                #[trigger] scores.scores_at(row, column),
                r@[row * TILE_SIZE + column] as int,
            ),
{
    let mut segmap: Vec<usize> = Vec::new();
    for i in 0..TILE_SIZE
        invariant
            scores.wf(),
            scores.rows >= TILE_SIZE,
            scores.columns >= TILE_SIZE,
            scores.classes >= NUMBER_OF_CLASSES,
            segmap@.len() == i * TILE_SIZE,
            forall|row: int, column: int|
                0 <= row < i && 0 <= column < TILE_SIZE ==> is_class(
                    #[trigger] scores.scores_at(row, column),
                    segmap@[row * TILE_SIZE + column] as int,
                ),
    {
        for j in 0..TILE_SIZE
            invariant
                i < TILE_SIZE,
                scores.wf(),
                scores.rows >= TILE_SIZE,
                scores.columns >= TILE_SIZE,
                scores.classes >= NUMBER_OF_CLASSES,
                segmap@.len() == i * TILE_SIZE + j,
                forall|row: int, column: int|
                    0 <= row < i && 0 <= column < TILE_SIZE || row == i && 0 <= column < j
                        ==> is_class(
                        #[trigger] scores.scores_at(row, column),
                        segmap@[row * TILE_SIZE + column] as int,
                    ),
        {
            segmap.push(class_of(scores, i, j));
        }
    }
    segmap
}

/// The scores are read as they are stored: every entry is the score of one class at one pixel, the
/// classes of a pixel next to each other, pixel by pixel, row by row.
pub proof fn law_scores_in_order(scores: Scores, k: int)
    requires
        scores.wf(),
        0 <= k < scores.data@.len(),
        scores.classes > 0,
        scores.columns > 0,
    ensures
        ({
            let pixel = k / scores.classes as int;
            let row = pixel / scores.columns as int;
            let column = pixel % scores.columns as int;
            &&& 0 <= row < scores.rows
            &&& scores.score(row, column, k % scores.classes as int) == scores.data@[k]
        }),
{
    let classes = scores.classes as int;
    let columns = scores.columns as int;
    let pixel = k / classes;
    vstd::arithmetic::div_mod::lemma_fundamental_div_mod(k, classes);
    vstd::arithmetic::div_mod::lemma_fundamental_div_mod(pixel, columns);
    assert(columns * (pixel / columns) == (pixel / columns) * columns) by (nonlinear_arith);
    assert(classes * pixel == pixel * classes) by (nonlinear_arith);
    let row = pixel / columns;
    let column = pixel % columns;
    assert(0 <= row < scores.rows) by (nonlinear_arith)
        requires
            k == pixel * classes + k % classes,
            pixel == row * columns + column,
            0 <= k < scores.rows * columns * classes,
            0 <= k % classes < classes,
            0 <= column < columns,
            classes > 0,
            columns > 0,
            scores.rows >= 0,
    ;
}

/// The class of a pixel has the largest score: no class has a larger one, of those with the same
/// one it is the last, and what is not a number does not take part. Where no score is at least
/// zero, it is the first class.
pub proof fn law_class_scores_highest(scores: Seq<Real>, class: int, t: int)
    requires
        is_class(scores, class),
        0 <= t < scores.len(),
    ensures
        (Real { bits: 0 }).le_spec(scores[t]) ==> {
            &&& 0 <= class < scores.len()
            &&& scores[t].le_spec(scores[class])
            &&& t > class ==> !scores[class].le_spec(scores[t])
        },
        0 <= class < scores.len() && (Real { bits: 0 }).le_spec(scores[class]) && !scores[t].nan()
            ==> scores[t].le_spec(scores[class]),
        (forall|u: int|
            0 <= u < scores.len() ==> !(Real { bits: 0 }).le_spec(#[trigger] scores[u]))
            ==> class == 0,
{
}

/// The image of a tile holds, at each pixel and for each band, the value that the grid of the band
/// has at the pixel.
pub proof fn law_image_holds_tiles(
    tiles: Seq<BandTile>,
    batch: ImageBatch,
    row: int,
    column: int,
    band: int,
)
    requires
        complete(tiles),
        batch.data@ == interleaved(grids(tiles), (batch.rows * batch.columns) as nat),
        0 <= row < batch.rows,
        0 <= column < batch.columns,
        0 <= band < tiles.len(),
    ensures
        ({
            let pixel = row * batch.columns + column;
            let k = pixel * tiles.len() + band;
            &&& 0 <= k < batch.data@.len()
            &&& tiles[band] matches BandTile::Grid { rows, columns, data }
            &&& batch.data@[k] == data@[pixel]
        }),
{
    let columns = batch.columns as nat;
    assert(row * columns + column < batch.rows * batch.columns) by (nonlinear_arith)
        requires
            0 <= row,
            row + 1 <= batch.rows,
            0 <= column < columns,
            columns == batch.columns,
    ;
    law_image_holds_bands(
        grids(tiles),
        columns,
        (batch.rows * batch.columns) as nat,
        row,
        column,
        band,
    );
    assert(tiles[band] is Grid);
}

} // verus!
