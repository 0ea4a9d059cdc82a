//! The filters that each row of image data goes through before it is
//! packed, and their undoing.

use vstd::prelude::*;
use crate::error::DecoderError;

verus! {

/// The highest filter type.
pub const MAX_FILTER: u8 = 4;

/// The distance between `x` and `y`.
pub open spec fn distance(x: int, y: int) -> int {
    if x >= y {
        x - y
    } else {
        y - x
    }
}

/// Of the byte to the left `a`, the byte above `b` and the byte above left
/// `c`, the one nearest to `a + b - c`; on a tie `a` before `b` before `c`.
pub open spec fn paeth(a: u8, b: u8, c: u8) -> u8 {
    let p = a + b - c;
    if distance(p, a as int) <= distance(p, b as int) && distance(p, a as int) <= distance(
        p,
        c as int,
    ) {
        a
    } else if distance(p, b as int) <= distance(p, c as int) {
        b
    } else {
        c
    }
}

/// What a filter of type `kind` expects a byte to be, from the byte to
/// its left `a`, the byte above `b` and the byte above left `c`: nothing
/// (type 0), `a` (1), `b` (2), their mean rounded down (3), or the Paeth
/// choice (4).
pub open spec fn predict(kind: u8, a: u8, b: u8, c: u8) -> u8 {
    if kind == 0 {
        0
    } else if kind == 1 {
        a
    } else if kind == 2 {
        b
    } else if kind == 3 {
        ((a + b) / 2) as u8
    } else {
        paeth(a, b, c)
    }
}

/// The byte `bpp` places before place `i` of `row`; 0 where the row
/// begins later.
pub open spec fn before(row: Seq<u8>, i: int, bpp: int) -> u8 {
    if i >= bpp {
        row[i - bpp]
    } else {
        0
    }
}

/// The row that `row` was before a filter of type `kind` went over it.
/// `prior` is the row above as it was before filtering, and `bpp` the
/// number of bytes from a pixel to the next. Each byte is the filtered
/// byte plus what the filter expected, modulo 256.
pub open spec fn unfilter_row(kind: u8, row: Seq<u8>, prior: Seq<u8>, bpp: int) -> Seq<u8>
    decreases row.len(),
{
    if row.len() == 0 {
        Seq::empty()
    } else {
        let head = unfilter_row(kind, row.drop_last(), prior, bpp);
        let i = row.len() - 1;
        head.push(
            ((row[i] + predict(kind, before(head, i, bpp), prior[i], before(prior, i, bpp)))
                % 256) as u8,
        )
    }
}

/// The unfiltered row is as long as the filtered one.
pub proof fn lemma_unfilter_row_len(kind: u8, row: Seq<u8>, prior: Seq<u8>, bpp: int)
    ensures
        unfilter_row(kind, row, prior, bpp).len() == row.len(),
    decreases row.len(),
{
    if row.len() > 0 {
        lemma_unfilter_row_len(kind, row.drop_last(), prior, bpp);
    }
}

/// A filter of type 0 leaves the row as it is.
pub proof fn lemma_unfilter_row_none(row: Seq<u8>, prior: Seq<u8>, bpp: int)
    ensures
        unfilter_row(0, row, prior, bpp) == row,
    decreases row.len(),
{
    if row.len() > 0 {
        lemma_unfilter_row_none(row.drop_last(), prior, bpp);
        assert(row.drop_last().push(row.last()) =~= row);
    } else {
        assert(row =~= Seq::<u8>::empty());
    }
}

/// The Paeth choice among three bytes.
pub fn paeth_of(a: u8, b: u8, c: u8) -> (r: u8)
    ensures
        r == paeth(a, b, c),
{
    let p: i16 = a as i16 + b as i16 - c as i16;
    let pa: i16 = if p >= a as i16 {
        p - a as i16
    } else {
        a as i16 - p
    };
    let pb: i16 = if p >= b as i16 {
        p - b as i16
    } else {
        b as i16 - p
    };
    let pc: i16 = if p >= c as i16 {
        p - c as i16
    } else {
        c as i16 - p
    };
    if pa <= pb && pa <= pc {
        a
    } else if pb <= pc {
        b
    } else {
        c
    }
}

/// What a filter of type `kind` expects a byte to be.
pub fn predicted(kind: u8, a: u8, b: u8, c: u8) -> (r: u8)
    ensures
        r == predict(kind, a, b, c),
{
    if kind == 0 {
        0
    } else if kind == 1 {
        a
    } else if kind == 2 {
        b
    } else if kind == 3 {
        ((a as u16 + b as u16) / 2) as u8
    } else {
        paeth_of(a, b, c)
    }
}

/// Undoes the filter of type `kind` on the row `data[at..at + stride]` and
/// appends the row to `out`. The row above is the last `stride` bytes of
/// `out` if `below` is set, and a row of zeros if not.
pub fn unfilter_row_onto(
    out: &mut Vec<u8>,
    kind: u8,
    data: &[u8],
    at: usize,
    stride: usize,
    below: bool,
    bpp: usize,
)
    requires
        at + stride <= data@.len(),
        bpp >= 1,
        below ==> old(out)@.len() >= stride,
    ensures
        final(out)@ == old(out)@ + unfilter_row(
            kind,
            data@.subrange(at as int, at + stride),
            row_above(old(out)@, stride as nat, below),
            bpp as int,
        ),
{
    let ghost row = data@.subrange(at as int, at + stride);
    let ghost prior = row_above(old(out)@, stride as nat, below);
    let base: usize = out.len();
    let total: usize = data.len();
    let mut i: usize = 0;
    assert(row.take(0) =~= Seq::<u8>::empty());
    while i < stride
        invariant
            0 <= i <= stride,
            at + stride <= data@.len() == total,
            bpp >= 1,
            below ==> base >= stride,
            base == old(out)@.len(),
            row == data@.subrange(at as int, at + stride),
            prior == row_above(old(out)@, stride as nat, below),
            out@ == old(out)@ + unfilter_row(kind, row.take(i as int), prior, bpp as int),
            out@.len() == base + i,
        decreases stride - i,
    {
        let ghost head = unfilter_row(kind, row.take(i as int), prior, bpp as int);
        let end: usize = out.len();
        let a: u8 = if i >= bpp {
            out[end - bpp]
        } else {
            0
        };
        let b: u8 = if below {
            out[base - stride + i]
        } else {
            0
        };
        let c: u8 = if below && i >= bpp {
            out[base - stride + i - bpp]
        } else {
            0
        };
        let x: u8 = data[at + i];
        let v: u8 = ((x as u16 + predicted(kind, a, b, c) as u16) % 256) as u8;
        proof {
            lemma_unfilter_row_len(kind, row.take(i as int), prior, bpp as int);
            assert(row.take(i + 1).drop_last() =~= row.take(i as int));
            assert(row.take(i + 1)[i as int] == x);
            assert(a == before(head, i as int, bpp as int));
            assert(b == prior[i as int]);
            assert(c == before(prior, i as int, bpp as int));
        }
        out.push(v);
        assert(out@ =~= old(out)@ + unfilter_row(kind, row.take(i + 1), prior, bpp as int));
        i = i + 1;
    }
    assert(row.take(stride as int) =~= row);
}

/// The row above the one that comes next after `done`: the last `stride`
/// bytes of `done` if `below` is set, a row of zeros if not.
pub open spec fn row_above(done: Seq<u8>, stride: nat, below: bool) -> Seq<u8> {
    if below {
        done.skip(done.len() - stride)
    } else {
        Seq::new(stride, |i: int| 0u8)
    }
}

/// A run of rows of one length.
#[derive(Clone, Copy, Debug, PartialEq, Eq, Structural)]
pub struct Band {
    /// How many bytes a row has, the filter type not counted
    pub stride: usize,
    /// How many rows there are
    pub rows: usize,
}

/// How many bytes the rows of a band take with their filter types.
pub open spec fn band_len(band: Band) -> nat {
    (band.rows * (band.stride + 1)) as nat
}

/// How many bytes the rows of a band take without their filter types.
pub open spec fn band_raster(band: Band) -> nat {
    (band.rows * band.stride) as nat
}

/// How many bytes the rows of `bands` take with their filter types.
pub open spec fn bands_len(bands: Seq<Band>) -> nat
    decreases bands.len(),
{
    if bands.len() == 0 {
        0
    } else {
        bands_len(bands.drop_last()) + band_len(bands.last())
    }
}

/// How many bytes the rows of `bands` take without their filter types.
pub open spec fn bands_raster(bands: Seq<Band>) -> nat
    decreases bands.len(),
{
    if bands.len() == 0 {
        0
    } else {
        bands_raster(bands.drop_last()) + band_raster(bands.last())
    }
}

/// The first `rows` rows of `stride` bytes that `data` holds, each with
/// its filter undone. Every row begins with its filter type; a type above
/// 4 gives `None`.
pub open spec fn unfilter_band(data: Seq<u8>, stride: nat, rows: nat, bpp: int) -> Option<
    Seq<u8>,
>
    decreases rows,
{
    if rows == 0 {
        Some(Seq::empty())
    } else {
        match unfilter_band(data, stride, (rows - 1) as nat, bpp) {
            None => None,
            Some(above) => {
                let at = (rows - 1) * (stride + 1);
                if data[at] > MAX_FILTER {
                    None
                } else {
                    Some(
                        above + unfilter_row(
                            data[at],
                            data.subrange(at + 1, at + 1 + stride),
                            row_above(above, stride, rows > 1),
                            bpp,
                        ),
                    )
                }
            },
        }
    }
}

/// The rows of `bands` that `data` holds band after band, each row with
/// its filter undone.
pub open spec fn unfilter_bands(data: Seq<u8>, bands: Seq<Band>, bpp: int) -> Option<Seq<u8>>
    decreases bands.len(),
{
    if bands.len() == 0 {
        Some(Seq::empty())
    } else {
        match unfilter_bands(data, bands.drop_last(), bpp) {
            None => None,
            Some(before) => match unfilter_band(
                data.skip(bands_len(bands.drop_last()) as int),
                bands.last().stride as nat,
                bands.last().rows as nat,
                bpp,
            ) {
                None => None,
                Some(rows) => Some(before + rows),
            },
        }
    }
}

/// The picture that the unpacked image data `data` holds: `data` must be
/// exactly as long as the rows of `bands` with their filter types, and
/// every filter type must be known.
pub open spec fn unfilter_spec(data: Seq<u8>, bands: Seq<Band>, bpp: int) -> Result<
    Seq<u8>,
    DecoderError,
> {
    if data.len() != bands_len(bands) {
        Err(DecoderError::DataLength)
    } else {
        match unfilter_bands(data, bands, bpp) {
            None => Err(DecoderError::FilterType),
            Some(raster) => Ok(raster),
        }
    }
}

/// The rows of a band without their filter types are as many bytes as the
/// band has.
pub proof fn lemma_unfilter_band_len(data: Seq<u8>, stride: nat, rows: nat, bpp: int)
    requires
        unfilter_band(data, stride, rows, bpp) is Some,
        rows * (stride + 1) <= data.len(),
    ensures
        unfilter_band(data, stride, rows, bpp)->Some_0.len() == rows * stride,
    decreases rows,
{
    if rows > 0 {
        let above = unfilter_band(data, stride, (rows - 1) as nat, bpp)->Some_0;
        let at = (rows - 1) * (stride + 1);
        assert((rows - 1) * (stride + 1) + stride + 1 == rows * (stride + 1))
            by (nonlinear_arith);
        lemma_unfilter_band_len(data, stride, (rows - 1) as nat, bpp);
        lemma_unfilter_row_len(
            data[at],
            data.subrange(at + 1, at + 1 + stride),
            row_above(above, stride, rows > 1),
            bpp,
        );
        assert((rows - 1) * stride + stride == rows * stride) by (nonlinear_arith);
        let row = unfilter_row(
            data[at],
            data.subrange(at + 1, at + 1 + stride),
            row_above(above, stride, rows > 1),
            bpp,
        );
        assert(row.len() == stride);
        assert(above.len() == (rows - 1) * stride);
        assert(unfilter_band(data, stride, rows, bpp)->Some_0 == above + row);
    } else {
        assert(rows * stride == 0) by (nonlinear_arith)
            requires
                rows == 0,
        ;
    }
}

/// How many bytes the rows of `bands` take with their filter types, if a
/// `usize` can hold the number.
pub fn filtered_size(bands: &Vec<Band>) -> (size: Option<usize>)
    ensures
        match size {
            Some(n) => n == bands_len(bands@),
            None => bands_len(bands@) > usize::MAX,
        },
{
    let mut total: usize = 0;
    let mut k: usize = 0;
    assert(bands@.take(0) =~= Seq::<Band>::empty());
    while k < bands.len()
        invariant
            0 <= k <= bands@.len(),
            total == bands_len(bands@.take(k as int)),
        decreases bands@.len() - k,
    {
        let band = bands[k];
        proof {
            assert(bands@.take(k + 1).drop_last() =~= bands@.take(k as int));
            lemma_bands_len_grows(bands@, k + 1);
        }
        let size: usize = if band.rows == 0 {
            assert(band.rows * (band.stride + 1) == 0) by (nonlinear_arith)
                requires
                    band.rows == 0,
            ;
            0
        } else {
            match band.stride.checked_add(1) {
                None => {
                    assert(band.rows * (band.stride + 1) > usize::MAX) by (nonlinear_arith)
                        requires
                            band.rows >= 1,
                            band.stride + 1 > usize::MAX,
                    ;
                    return None;
                },
                Some(row) => match band.rows.checked_mul(row) {
                    None => return None,
                    Some(n) => n,
                },
            }
        };
        total = match total.checked_add(size) {
            Some(n) => n,
            None => return None,
        };
        k = k + 1;
    }
    assert(bands@.take(k as int) =~= bands@);
    Some(total)
}

/// The bytes of the first `k` bands are no more than those of all.
pub proof fn lemma_bands_len_grows(bands: Seq<Band>, k: int)
    requires
        0 <= k <= bands.len(),
    ensures
        bands_len(bands.take(k)) <= bands_len(bands),
    decreases bands.len() - k,
{
    if k < bands.len() {
        assert(bands.take(k + 1).drop_last() =~= bands.take(k));
        lemma_bands_len_grows(bands, k + 1);
    } else {
        assert(bands.take(k) =~= bands);
    }
}

/// Undoes the filters on the rows of `band`, which `data` holds from
/// place `at` on, and appends the rows to `out`. A filter type above 4 is
/// refused with `FilterType`.
pub fn unfilter_band_onto(out: &mut Vec<u8>, data: &[u8], at: usize, band: Band, bpp: usize) -> (r:
    Result<(), DecoderError>)
    requires
        at + band_len(band) <= data@.len(),
        bpp >= 1,
    ensures
        match unfilter_band(data@.skip(at as int), band.stride as nat, band.rows as nat, bpp as int) {
            Some(rows) => r is Ok && final(out)@ == old(out)@ + rows,
            None => r == Err::<(), DecoderError>(DecoderError::FilterType),
        },
{
    let ghost from = data@.skip(at as int);
    let ghost stride = band.stride as nat;
    let total: usize = data.len();
    let mut pos: usize = at;
    let mut row: usize = 0;
    assert(out@ =~= old(out)@ + Seq::<u8>::empty());
    while row < band.rows
        invariant
            0 <= row <= band.rows,
            bpp >= 1,
            at + band_len(band) <= data@.len() == total,
            pos == at + row * (band.stride + 1),
            from == data@.skip(at as int),
            stride == band.stride,
            unfilter_band(from, stride, row as nat, bpp as int) is Some,
            out@ == old(out)@ + unfilter_band(from, stride, row as nat, bpp as int)->Some_0,
        decreases band.rows - row,
    {
        let ghost above = unfilter_band(from, stride, row as nat, bpp as int)->Some_0;
        proof {
            assert((row + 1) * (band.stride + 1) == row * (band.stride + 1) + band.stride + 1)
                by (nonlinear_arith);
            assert((row + 1) * (band.stride + 1) <= band.rows * (band.stride + 1))
                by (nonlinear_arith)
                requires
                    row + 1 <= band.rows,
            ;
            lemma_unfilter_band_len(from, stride, row as nat, bpp as int);
            assert(row > 0 ==> row * band.stride >= band.stride) by (nonlinear_arith);
        }
        let kind: u8 = data[pos];
        assert(kind == from[row * (band.stride + 1)]);
        if kind > MAX_FILTER {
            proof {
                lemma_unfilter_band_none(from, stride, row as nat + 1, band.rows as nat, bpp as int);
            }
            return Err(DecoderError::FilterType);
        }
        let ghost start = out@;
        unfilter_row_onto(out, kind, data, pos + 1, band.stride, row > 0, bpp);
        proof {
            let at_row = row * (band.stride + 1);
            assert(data@.subrange(pos + 1, pos + 1 + band.stride) =~= from.subrange(
                at_row + 1,
                at_row + 1 + stride,
            ));
            if row > 0 {
                assert(row_above(start, stride, true) =~= row_above(above, stride, true));
            }
            assert(row_above(start, stride, row > 0) == row_above(above, stride, row > 0));
            let next = unfilter_band(from, stride, row as nat + 1, bpp as int);
            assert(next is Some);
            assert(out@ =~= old(out)@ + next->Some_0);
        }
        pos = pos + 1 + band.stride;
        row = row + 1;
    }
    Ok(())
}

/// Once a filter type is unknown, more rows do not mend it.
pub proof fn lemma_unfilter_band_none(data: Seq<u8>, stride: nat, bad: nat, rows: nat, bpp: int)
    requires
        bad <= rows,
        unfilter_band(data, stride, bad, bpp) is None,
    ensures
        unfilter_band(data, stride, rows, bpp) is None,
    decreases rows,
{
    if bad < rows {
        lemma_unfilter_band_none(data, stride, bad, (rows - 1) as nat, bpp);
    }
}

/// Once a filter type is unknown, more bands do not mend it.
pub proof fn lemma_unfilter_bands_none(data: Seq<u8>, bands: Seq<Band>, bad: int, bpp: int)
    requires
        0 <= bad <= bands.len(),
        unfilter_bands(data, bands.take(bad), bpp) is None,
    ensures
        unfilter_bands(data, bands, bpp) is None,
    decreases bands.len() - bad,
{
    if bad < bands.len() {
        assert(bands.take(bad + 1).drop_last() =~= bands.take(bad));
        lemma_unfilter_bands_none(data, bands, bad + 1, bpp);
    } else {
        assert(bands.take(bad) =~= bands);
    }
}

/// Undoes the filters on the unpacked image data `data`, which holds the
/// rows of `bands`, band after band. `bpp` is the number of bytes from a
/// pixel to the next.
///
/// Data of another length than the rows have is refused with
/// `DataLength`; after that, a filter type above 4 with `FilterType`.
pub fn unfilter(data: &[u8], bands: &Vec<Band>, bpp: usize) -> (r: Result<Vec<u8>, DecoderError>)
    requires
        bpp >= 1,
    ensures
        match unfilter_spec(data@, bands@, bpp as int) {
            Ok(raster) => r is Ok && r->Ok_0@ == raster,
            Err(e) => r is Err && r->Err_0 == e,
        },
{
    let total: usize = data.len();
    match filtered_size(bands) {
        None => return Err(DecoderError::DataLength),
        Some(size) => {
            if size != total {
                return Err(DecoderError::DataLength);
            }
        },
    }
    let mut out: Vec<u8> = Vec::new();
    let mut at: usize = 0;
    let mut k: usize = 0;
    assert(bands@.take(0) =~= Seq::<Band>::empty());
    while k < bands.len()
        invariant
            0 <= k <= bands@.len(),
            bpp >= 1,
            data@.len() == bands_len(bands@) == total,
            at == bands_len(bands@.take(k as int)),
            unfilter_bands(data@, bands@.take(k as int), bpp as int) is Some,
            out@ == unfilter_bands(data@, bands@.take(k as int), bpp as int)->Some_0,
        decreases bands@.len() - k,
    {
        let band = bands[k];
        proof {
            assert(bands@.take(k + 1).drop_last() =~= bands@.take(k as int));
            lemma_bands_len_grows(bands@, k + 1);
        }
        let ghost before = out@;
        match unfilter_band_onto(&mut out, data, at, band, bpp) {
            Ok(()) => {},
            Err(e) => {
                proof {
                    lemma_unfilter_bands_none(data@, bands@, k + 1, bpp as int);
                }
                return Err(e);
            },
        }
        if band.rows > 0 {
            assert(band.stride + 1 <= band.rows * (band.stride + 1)) by (nonlinear_arith)
                requires
                    band.rows >= 1,
            ;
            at = at + band.rows * (band.stride + 1);
        } else {
            assert(band.rows * (band.stride + 1) == 0) by (nonlinear_arith)
                requires
                    band.rows == 0,
            ;
        }
        k = k + 1;
    }
    assert(bands@.take(k as int) =~= bands@);
    Ok(out)
}

/// The first `rows` rows of `stride` bytes of `raster`, each behind the
/// filter type 0.
pub open spec fn plain_band(raster: Seq<u8>, stride: nat, rows: nat) -> Seq<u8>
    decreases rows,
{
    if rows == 0 {
        Seq::empty()
    } else {
        plain_band(raster, stride, (rows - 1) as nat) + seq![0u8] + raster.subrange(
            (rows - 1) * stride,
            (rows * stride) as int,
        )
    }
}

/// The rows of `bands` that `raster` holds band after band, each row
/// behind the filter type 0.
pub open spec fn plain_bands(raster: Seq<u8>, bands: Seq<Band>) -> Seq<u8>
    decreases bands.len(),
{
    if bands.len() == 0 {
        Seq::empty()
    } else {
        plain_bands(raster, bands.drop_last()) + plain_band(
            raster.skip(bands_raster(bands.drop_last()) as int),
            bands.last().stride as nat,
            bands.last().rows as nat,
        )
    }
}

/// The image data that a picture is written as: every row behind the
/// filter type 0. A picture of another length than the rows have has
/// none.
pub open spec fn filter_spec(raster: Seq<u8>, bands: Seq<Band>) -> Option<Seq<u8>> {
    if raster.len() != bands_raster(bands) {
        None
    } else {
        Some(plain_bands(raster, bands))
    }
}

/// The bytes of the first `k` bands without filter types are no more
/// than those of all.
pub proof fn lemma_bands_raster_grows(bands: Seq<Band>, k: int)
    requires
        0 <= k <= bands.len(),
    ensures
        bands_raster(bands.take(k)) <= bands_raster(bands),
    decreases bands.len() - k,
{
    if k < bands.len() {
        assert(bands.take(k + 1).drop_last() =~= bands.take(k));
        lemma_bands_raster_grows(bands, k + 1);
    } else {
        assert(bands.take(k) =~= bands);
    }
}

/// Puts the rows of `band`, which `raster` holds from place `at` on,
/// behind the filter type 0 and appends them to `out`.
pub fn plain_band_onto(out: &mut Vec<u8>, raster: &[u8], at: usize, band: Band)
    requires
        at + band_raster(band) <= raster@.len(),
    ensures
        final(out)@ == old(out)@ + plain_band(
            raster@.skip(at as int),
            band.stride as nat,
            band.rows as nat,
        ),
{
    let ghost from = raster@.skip(at as int);
    let total: usize = raster.len();
    let mut pos: usize = at;
    let mut row: usize = 0;
    assert(out@ =~= old(out)@ + Seq::<u8>::empty());
    while row < band.rows
        invariant
            0 <= row <= band.rows,
            at + band_raster(band) <= raster@.len() == total,
            pos == at + row * band.stride,
            from == raster@.skip(at as int),
            out@ == old(out)@ + plain_band(from, band.stride as nat, row as nat),
        decreases band.rows - row,
    {
        proof {
            assert((row + 1) * band.stride == row * band.stride + band.stride)
                by (nonlinear_arith);
            assert((row + 1) * band.stride <= band.rows * band.stride) by (nonlinear_arith)
                requires
                    row + 1 <= band.rows,
            ;
        }
        out.push(0);
        let mut i: usize = 0;
        let ghost start = out@;
        while i < band.stride
            invariant
                0 <= i <= band.stride,
                pos + band.stride <= raster@.len() == total,
                out@ == start + raster@.subrange(pos as int, pos + i),
            decreases band.stride - i,
        {
            out.push(raster[pos + i]);
            assert(out@ =~= start + raster@.subrange(pos as int, pos + i + 1));
            i = i + 1;
        }
        proof {
            assert(raster@.subrange(pos as int, pos + band.stride) =~= from.subrange(
                row * band.stride,
                (row + 1) * band.stride,
            ));
            assert(out@ =~= old(out)@ + plain_band(from, band.stride as nat, (row + 1) as nat));
        }
        pos = pos + band.stride;
        row = row + 1;
    }
}

/// How many bytes the rows of `bands` take without their filter types, if
/// a `usize` can hold the number.
pub fn raster_size(bands: &Vec<Band>) -> (size: Option<usize>)
    ensures
        match size {
            Some(n) => n == bands_raster(bands@),
            None => bands_raster(bands@) > usize::MAX,
        },
{
    let mut total: usize = 0;
    let mut k: usize = 0;
    assert(bands@.take(0) =~= Seq::<Band>::empty());
    while k < bands.len()
        invariant
            0 <= k <= bands@.len(),
            total == bands_raster(bands@.take(k as int)),
        decreases bands@.len() - k,
    {
        let band = bands[k];
        proof {
            assert(bands@.take(k + 1).drop_last() =~= bands@.take(k as int));
            lemma_bands_raster_grows(bands@, k + 1);
        }
        let size: usize = match band.rows.checked_mul(band.stride) {
            None => return None,
            Some(n) => n,
        };
        total = match total.checked_add(size) {
            Some(n) => n,
            None => return None,
        };
        k = k + 1;
    }
    assert(bands@.take(k as int) =~= bands@);
    Some(total)
}

/// Puts every row of the picture `raster`, which holds the rows of
/// `bands` band after band, behind the filter type 0. A picture of
/// another length than the rows have gives `None`.
pub fn filter(raster: &[u8], bands: &Vec<Band>) -> (r: Option<Vec<u8>>)
    ensures
        match filter_spec(raster@, bands@) {
            Some(data) => r is Some && r->Some_0@ == data,
            None => r is None,
        },
{
    let total: usize = raster.len();
    match raster_size(bands) {
        None => return None,
        Some(size) => {
            if size != total {
                return None;
            }
        },
    }
    let mut out: Vec<u8> = Vec::new();
    let mut at: usize = 0;
    let mut k: usize = 0;
    assert(bands@.take(0) =~= Seq::<Band>::empty());
    while k < bands.len()
        invariant
            0 <= k <= bands@.len(),
            raster@.len() == bands_raster(bands@) == total,
            at == bands_raster(bands@.take(k as int)),
            out@ == plain_bands(raster@, bands@.take(k as int)),
        decreases bands@.len() - k,
    {
        let band = bands[k];
        proof {
            assert(bands@.take(k + 1).drop_last() =~= bands@.take(k as int));
            lemma_bands_raster_grows(bands@, k + 1);
        }
        plain_band_onto(&mut out, raster, at, band);
        at = at + band.rows * band.stride;
        k = k + 1;
    }
    assert(bands@.take(k as int) =~= bands@);
    Some(out)
}

/// Rows behind their filter types take one byte more each.
pub proof fn lemma_plain_band_len(raster: Seq<u8>, stride: nat, rows: nat)
    requires
        rows * stride <= raster.len(),
    ensures
        plain_band(raster, stride, rows).len() == rows * (stride + 1),
    decreases rows,
{
    if rows > 0 {
        assert((rows - 1) * stride + stride == rows * stride) by (nonlinear_arith);
        assert((rows - 1) * (stride + 1) + 1 + stride == rows * (stride + 1))
            by (nonlinear_arith);
        lemma_plain_band_len(raster, stride, (rows - 1) as nat);
    } else {
        assert(rows * (stride + 1) == 0) by (nonlinear_arith)
            requires
                rows == 0,
        ;
    }
}

/// Undoing the filters on rows that were put behind the filter type 0
/// gives the rows, whatever follows them.
pub proof fn lemma_plain_band_back(
    raster: Seq<u8>,
    stride: nat,
    rows: nat,
    extra: Seq<u8>,
    bpp: int,
)
    requires
        rows * stride <= raster.len(),
    ensures
        unfilter_band(plain_band(raster, stride, rows) + extra, stride, rows, bpp) == Some(
            raster.take((rows * stride) as int),
        ),
    decreases rows,
{
    let data = plain_band(raster, stride, rows) + extra;
    if rows == 0 {
        assert(rows * stride == 0) by (nonlinear_arith)
            requires
                rows == 0,
        ;
        assert(raster.take(0) =~= Seq::<u8>::empty());
    } else {
        let fewer = (rows - 1) as nat;
        let head = plain_band(raster, stride, fewer);
        let row = raster.subrange((rows - 1) * stride, (rows * stride) as int);
        let at = (rows - 1) * (stride + 1);
        assert(fewer * stride + stride == rows * stride) by (nonlinear_arith)
            requires
                fewer == rows - 1,
        ;
        assert(fewer * (stride + 1) == at);
        lemma_plain_band_len(raster, stride, fewer);
        assert(data =~= head + (seq![0u8] + row + extra));
        lemma_plain_band_back(raster, stride, fewer, seq![0u8] + row + extra, bpp);
        let above = raster.take((fewer * stride) as int);
        assert(unfilter_band(data, stride, fewer, bpp) == Some(above));
        assert(data[at] == 0);
        assert(data.subrange(at + 1, at + 1 + stride) =~= row);
        lemma_unfilter_row_none(row, row_above(above, stride, rows > 1), bpp);
        assert(above + row =~= raster.take((rows * stride) as int));
    }
}

/// Bands behind their filter types take one byte more for each row.
pub proof fn lemma_plain_bands_len(raster: Seq<u8>, bands: Seq<Band>)
    requires
        bands_raster(bands) <= raster.len(),
    ensures
        plain_bands(raster, bands).len() == bands_len(bands),
    decreases bands.len(),
{
    if bands.len() > 0 {
        let last = bands.last();
        lemma_plain_bands_len(raster, bands.drop_last());
        lemma_plain_band_len(
            raster.skip(bands_raster(bands.drop_last()) as int),
            last.stride as nat,
            last.rows as nat,
        );
    }
}

/// Undoing the filters on bands that were put behind the filter type 0
/// gives the bands, whatever follows them.
pub proof fn lemma_plain_bands_back(raster: Seq<u8>, bands: Seq<Band>, extra: Seq<u8>, bpp: int)
    requires
        bands_raster(bands) <= raster.len(),
    ensures
        unfilter_bands(plain_bands(raster, bands) + extra, bands, bpp) == Some(
            raster.take(bands_raster(bands) as int),
        ),
    decreases bands.len(),
{
    if bands.len() == 0 {
        assert(raster.take(0) =~= Seq::<u8>::empty());
    } else {
        let first = bands.drop_last();
        let last = bands.last();
        let done = bands_raster(first) as int;
        let head = plain_bands(raster, first);
        let tail = plain_band(raster.skip(done), last.stride as nat, last.rows as nat);
        let data = plain_bands(raster, bands) + extra;
        lemma_plain_bands_len(raster, first);
        assert(data =~= head + (tail + extra));
        lemma_plain_bands_back(raster, first, tail + extra, bpp);
        assert(data.skip(bands_len(first) as int) =~= tail + extra);
        lemma_plain_band_back(raster.skip(done), last.stride as nat, last.rows as nat, extra, bpp);
        assert(raster.take(done) + raster.skip(done).take((last.rows * last.stride) as int)
            =~= raster.take(bands_raster(bands) as int));
    }
}

/// A picture that is put behind the filter type 0 and has its filters
/// undone is the picture again.
pub proof fn lemma_filter_round_trip(raster: Seq<u8>, bands: Seq<Band>, bpp: int)
    requires
        raster.len() == bands_raster(bands),
    ensures
        filter_spec(raster, bands) is Some,
        unfilter_spec(filter_spec(raster, bands)->Some_0, bands, bpp) == Ok::<
            Seq<u8>,
            DecoderError,
        >(raster),
{
    lemma_plain_bands_len(raster, bands);
    lemma_plain_bands_back(raster, bands, Seq::empty(), bpp);
    assert(plain_bands(raster, bands) + Seq::<u8>::empty() =~= plain_bands(raster, bands));
    assert(raster.take(raster.len() as int) =~= raster);
}

} // verus!
