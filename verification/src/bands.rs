//! The horizontal bands that an image is shared out in, one for each
//! worker, and the proof that they partition its rows.

use vstd::prelude::*;
use vstd::arithmetic::div_mod::{lemma_div_is_ordered, lemma_div_multiples_vanish};
use vstd::arithmetic::mul::lemma_mul_inequality;

verus! {

/// The first row of band `index` when `height` rows are shared out among
/// `workers` bands: `index * height / workers`, rounded down.
pub open spec fn band_start(index: nat, height: nat, workers: nat) -> nat {
    (index * height) / workers
}

/// Row `row` lies in band `index`.
pub open spec fn in_band(row: nat, index: nat, height: nat, workers: nat) -> bool {
    band_start(index, height, workers) <= row < band_start(index + 1, height, workers)
}

/// The band that row `row` lies in.
pub open spec fn band_of(row: nat, height: nat, workers: nat) -> nat {
    choose|index: nat| index < workers && in_band(row, index, height, workers)
}

/// The bands begin at row 0 and end at row `height`.
pub proof fn lemma_band_ends(height: nat, workers: nat)
    requires
        workers > 0,
    ensures
        band_start(0, height, workers) == 0,
        band_start(workers, height, workers) == height,
{
    lemma_div_multiples_vanish(height as int, workers as int);
}

/// A later band does not begin before an earlier one.
pub proof fn lemma_band_start_monotone(i: nat, j: nat, height: nat, workers: nat)
    requires
        workers > 0,
        i <= j,
    ensures
        band_start(i, height, workers) <= band_start(j, height, workers),
{
    lemma_mul_inequality(i as int, j as int, height as int);
    lemma_div_is_ordered((i * height) as int, (j * height) as int, workers as int);
}

/// Every band lies inside the image.
pub proof fn lemma_band_within(index: nat, height: nat, workers: nat)
    requires
        workers > 0,
        index <= workers,
    ensures
        band_start(index, height, workers) <= height,
{
    lemma_band_start_monotone(index, workers, height, workers);
    lemma_band_ends(height, workers);
}

/// Two different bands share no row.
pub proof fn lemma_bands_disjoint(row: nat, i: nat, j: nat, height: nat, workers: nat)
    requires
        workers > 0,
        in_band(row, i, height, workers),
        in_band(row, j, height, workers),
    ensures
        i == j,
{
    if i < j {
        lemma_band_start_monotone(i + 1, j, height, workers);
    } else if j < i {
        lemma_band_start_monotone(j + 1, i, height, workers);
    }
}

proof fn lemma_covered_below(row: nat, upto: nat, height: nat, workers: nat)
    requires
        workers > 0,
        row < band_start(upto, height, workers),
    ensures
        exists|index: nat| index < upto && in_band(row, index, height, workers),
    decreases upto,
{
    if upto == 0 {
        assert(band_start(0, height, workers) == 0) by {
            lemma_band_ends(height, workers);
        }
    } else {
        let last = (upto - 1) as nat;
        if row < band_start(last, height, workers) {
            lemma_covered_below(row, last, height, workers);
        } else {
            assert(last < upto && in_band(row, last, height, workers));
        }
    }
}

/// The bands partition the rows: each row of the image lies in exactly one
/// band, and `band_of` names it.
pub proof fn lemma_bands_partition(row: nat, height: nat, workers: nat)
    requires
        workers > 0,
        row < height,
    ensures
        band_of(row, height, workers) < workers,
        in_band(row, band_of(row, height, workers), height, workers),
        forall|index: nat| in_band(row, index, height, workers) ==> index == band_of(row, height, workers),
{
    lemma_band_ends(height, workers);
    lemma_covered_below(row, workers, height, workers);
    let found = band_of(row, height, workers);
    assert forall|index: nat| in_band(row, index, height, workers) implies index == found by {
        lemma_bands_disjoint(row, index, found, height, workers);
    }
}

/// With one worker the single band is the whole image.
pub proof fn lemma_single_band(height: nat)
    ensures
        band_start(0, height, 1) == 0,
        band_start(1, height, 1) == height,
{
    lemma_band_ends(height, 1);
}

/// The rows of band `index`: the first, and the one after the last.
pub fn band_rows(index: usize, height: usize, workers: usize) -> (rows: (usize, usize))
    requires
        workers > 0,
        index < workers,
    ensures
        rows.0 == band_start(index as nat, height as nat, workers as nat),
        rows.1 == band_start((index + 1) as nat, height as nat, workers as nat),
        rows.0 <= rows.1 <= height,
{
    proof {
        lemma_band_start_monotone(index as nat, (index + 1) as nat, height as nat, workers as nat);
        lemma_band_within((index + 1) as nat, height as nat, workers as nat);
        assert(index * height <= usize::MAX * usize::MAX) by (nonlinear_arith)
            requires
                index <= usize::MAX,
                height <= usize::MAX,
        ;
        assert((index + 1) * height <= usize::MAX * usize::MAX) by (nonlinear_arith)
            requires
                index + 1 <= usize::MAX,
                height <= usize::MAX,
        ;
        assert(usize::MAX * usize::MAX <= u128::MAX) by (nonlinear_arith)
            requires
                usize::MAX <= 0xffff_ffff_ffff_ffff,
        ;
    }
    let first: u128 = (index as u128) * (height as u128) / (workers as u128);
    let after: u128 = (index as u128 + 1) * (height as u128) / (workers as u128);
    (first as usize, after as usize)
}

} // verus!
