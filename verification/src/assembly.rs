//! What a set of delivered bands amounts to: the faults it may have, the
//! image it makes where it has none, and the laws that make this image
//! independent of how the rows were shared out.

use vstd::prelude::*;
use vstd::arithmetic::div_mod::{
    lemma_fundamental_div_mod, lemma_fundamental_div_mod_converse, lemma_mod_bound,
};
use crate::bands::{band_of, band_start, lemma_bands_partition};
use crate::frame::{frame_dimensions, frame_pixels, lemma_position_in_range, Frame};
use crate::renderer::FrameError;
use crate::scene::Canvas;
use crate::utils::rgb::RGB;

verus! {

/// A band as a mathematical value.
pub struct BandView {
    pub index: nat,
    pub rows: Seq<Seq<RGB>>,
}

impl BandView {
    /// The band has the index of one of the `workers` bands and exactly the
    /// rows and columns that band covers on a canvas of the given size.
    pub open spec fn shaped(self, width: nat, height: nat, workers: nat) -> bool {
        &&& self.index < workers
        &&& self.rows.len() == band_start(self.index + 1, height, workers) - band_start(
            self.index,
            height,
            workers,
        )
        &&& forall|r: int| 0 <= r < self.rows.len() ==> (#[trigger] self.rows[r]).len() == width
    }

    /// Every pixel of the band is what `pixel` gives for its column and its
    /// row in the image.
    pub open spec fn shows(
        self,
        pixel: spec_fn(int, int) -> RGB,
        height: nat,
        workers: nat,
    ) -> bool {
        forall|r: int, x: int|
            0 <= r < self.rows.len() && 0 <= x < self.rows[r].len() ==> #[trigger] self.rows[r][x]
                == pixel(x, band_start(self.index, height, workers) + r)
    }
}

/// Every pixel of the band is a result of `shade` for the pixel's column
/// and its row in the image.
pub open spec fn band_rendered<F: Fn(usize, usize) -> RGB>(
    band: BandView,
    shade: F,
    width: nat,
    height: nat,
    workers: nat,
) -> bool {
    forall|r: int, x: int|
        0 <= r < band.rows.len() && 0 <= x < width ==> call_ensures(
            shade,
            (x as usize, (band_start(band.index, height, workers) + r) as usize),
            #[trigger] band.rows[r][x],
        )
}

/// One of the first `upto` bands carries the index `index`.
pub open spec fn delivered(bands: Seq<BandView>, upto: int, index: nat) -> bool {
    exists|j: int| 0 <= j < upto && j < bands.len() && (#[trigger] bands[j]).index == index
}

/// What is wrong with band `k`, given the bands that arrived before it.
pub open spec fn band_fault(
    bands: Seq<BandView>,
    k: int,
    width: nat,
    height: nat,
    workers: nat,
) -> Option<FrameError> {
    let band = bands[k];
    if band.index >= workers {
        Some(FrameError::UnknownBand { index: band.index as usize })
    } else if delivered(bands, k, band.index) {
        Some(FrameError::DuplicateBand { index: band.index as usize })
    } else if !band.shaped(width, height, workers) {
        Some(FrameError::MalformedBand { index: band.index as usize })
    } else {
        None
    }
}

/// The fault of the earliest faulty band among the first `upto`, in the
/// order of arrival.
pub open spec fn first_fault(
    bands: Seq<BandView>,
    upto: int,
    width: nat,
    height: nat,
    workers: nat,
) -> Option<FrameError>
    decreases upto,
{
    if upto <= 0 {
        None
    } else {
        match first_fault(bands, upto - 1, width, height, workers) {
            Some(fault) => Some(fault),
            None => band_fault(bands, upto - 1, width, height, workers),
        }
    }
}

/// The least index below `upto` that no band carries.
pub open spec fn first_missing(bands: Seq<BandView>, upto: nat) -> Option<nat>
    decreases upto,
{
    if upto == 0 {
        None
    } else {
        match first_missing(bands, (upto - 1) as nat) {
            Some(index) => Some(index),
            None => if delivered(bands, bands.len() as int, (upto - 1) as nat) {
                None
            } else {
                Some((upto - 1) as nat)
            },
        }
    }
}

/// Nothing is wrong with `bands`: none is faulty and none is missing.
pub open spec fn complete(bands: Seq<BandView>, width: nat, height: nat, workers: nat) -> bool {
    &&& first_fault(bands, bands.len() as int, width, height, workers) is None
    &&& first_missing(bands, workers) is None
}

/// Why `bands` do not make a frame of `canvas` for `workers` workers, or
/// `None` where they do. The canvas is judged first, then the bands in the
/// order of arrival, then the indices from 0 up.
pub open spec fn assembly_fault(canvas: Canvas, workers: nat, bands: Seq<BandView>) -> Option<
    FrameError,
> {
    if !canvas.fits_buffer() {
        Some(FrameError::CanvasTooLarge)
    } else {
        match first_fault(
            bands,
            bands.len() as int,
            canvas.width as nat,
            canvas.height as nat,
            workers,
        ) {
            Some(fault) => Some(fault),
            None => match first_missing(bands, workers) {
                Some(index) => Some(FrameError::MissingBand { index: index as usize }),
                None => None,
            },
        }
    }
}

/// The place in `bands` of the band that carries `index`.
pub open spec fn position_of(bands: Seq<BandView>, index: nat) -> int {
    choose|k: int| 0 <= k < bands.len() && (#[trigger] bands[k]).index == index
}

/// The pixel that `bands` hold for column `x` of row `y` of the image: the
/// one in the band that the row lies in, at the row's place in that band.
pub open spec fn assembled_pixel(
    bands: Seq<BandView>,
    height: nat,
    workers: nat,
    x: int,
    y: int,
) -> RGB {
    let index = band_of(y as nat, height, workers);
    bands[position_of(bands, index)].rows[y - band_start(index, height, workers)][x]
}

/// The image that `bands` make, in row-major order.
pub open spec fn assembled(bands: Seq<BandView>, width: nat, height: nat, workers: nat) -> Seq<
    RGB,
> {
    Seq::new(
        width * height,
        |p: int| assembled_pixel(bands, height, workers, p % (width as int), p / (width as int)),
    )
}

/// The image that `pixel` describes, in row-major order.
pub open spec fn picture(pixel: spec_fn(int, int) -> RGB, width: nat, height: nat) -> Seq<RGB> {
    Seq::new(width * height, |p: int| pixel(p % (width as int), p / (width as int)))
}

/// `frame` is a rendering of `canvas` by `shade`: it has the size of the
/// canvas, and each of its pixels is a result of `shade` for its position.
pub open spec fn rendered<F: Fn(usize, usize) -> RGB>(frame: Frame, shade: F, canvas: Canvas) -> bool {
    &&& frame.well_formed()
    &&& frame_dimensions(frame) == (canvas.width as nat, canvas.height as nat)
    &&& forall|x: int, y: int|
        0 <= x < canvas.width && 0 <= y < canvas.height ==> call_ensures(
            shade,
            (x as usize, y as usize),
            #[trigger] frame.at(x, y),
        )
}

/// `shade` has at most one result for each pixel of the canvas.
pub open spec fn single_valued<F: Fn(usize, usize) -> RGB>(shade: F, canvas: Canvas) -> bool {
    forall|x: usize, y: usize, a: RGB, b: RGB|
        x < canvas.width && y < canvas.height && #[trigger] call_ensures(shade, (x, y), a)
            && #[trigger] call_ensures(shade, (x, y), b) ==> a == b
}

/// A fault found among the first bands stays the fault when more bands
/// are looked at.
pub proof fn lemma_fault_persists(
    bands: Seq<BandView>,
    found: int,
    upto: int,
    width: nat,
    height: nat,
    workers: nat,
)
    requires
        found <= upto,
        first_fault(bands, found, width, height, workers) is Some,
    ensures
        first_fault(bands, upto, width, height, workers) == first_fault(
            bands,
            found,
            width,
            height,
            workers,
        ),
    decreases upto - found,
{
    if found < upto {
        lemma_fault_persists(bands, found, upto - 1, width, height, workers);
    }
}

/// A missing index found below some bound stays the first missing one
/// below every larger bound.
pub proof fn lemma_missing_persists(bands: Seq<BandView>, found: nat, upto: nat)
    requires
        found <= upto,
        first_missing(bands, found) is Some,
    ensures
        first_missing(bands, upto) == first_missing(bands, found),
    decreases upto - found,
{
    if found < upto {
        lemma_missing_persists(bands, found, (upto - 1) as nat);
    }
}

/// Where no band among the first `upto` is faulty, each of them is well
/// shaped and no two of them carry the same index.
pub proof fn lemma_faultless(
    bands: Seq<BandView>,
    upto: int,
    width: nat,
    height: nat,
    workers: nat,
)
    requires
        0 <= upto <= bands.len(),
        first_fault(bands, upto, width, height, workers) is None,
    ensures
        forall|k: int| 0 <= k < upto ==> (#[trigger] bands[k]).shaped(width, height, workers),
        forall|j: int, k: int|
            0 <= j < k < upto ==> (#[trigger] bands[j]).index != (#[trigger] bands[k]).index,
    decreases upto,
{
    if upto > 0 {
        lemma_faultless(bands, upto - 1, width, height, workers);
    }
}

/// Where no index below `upto` is missing, some band carries each of them.
pub proof fn lemma_none_missing(bands: Seq<BandView>, upto: nat, index: nat)
    requires
        first_missing(bands, upto) is None,
        index < upto,
    ensures
        delivered(bands, bands.len() as int, index),
        0 <= position_of(bands, index) < bands.len(),
        bands[position_of(bands, index)].index == index,
    decreases upto,
{
    if index < upto - 1 {
        lemma_none_missing(bands, (upto - 1) as nat, index);
    }
}

/// The pixel of the assembled image at column `x` of row `y` is the one
/// that the bands hold for that position.
pub proof fn lemma_assembled_at(
    bands: Seq<BandView>,
    width: nat,
    height: nat,
    workers: nat,
    x: int,
    y: int,
)
    requires
        0 <= x < width,
        0 <= y < height,
    ensures
        0 <= y * width + x < width * height,
        assembled(bands, width, height, workers)[y * width + x] == assembled_pixel(
            bands,
            height,
            workers,
            x,
            y,
        ),
{
    lemma_position_in_range(width as int, height as int, x, y);
    let p = y * width + x;
    assert(p == (width as int) * y + x) by (nonlinear_arith)
        requires
            p == y * width + x,
    ;
    lemma_fundamental_div_mod_converse(p, width as int, y, x);
}

/// Bands that are complete and all show the same picture assemble to that
/// picture, however many workers shared the rows and in whatever order
/// their bands arrived.
pub proof fn lemma_assembled_is_picture(
    bands: Seq<BandView>,
    pixel: spec_fn(int, int) -> RGB,
    width: nat,
    height: nat,
    workers: nat,
)
    requires
        workers > 0,
        complete(bands, width, height, workers),
        forall|k: int| 0 <= k < bands.len() ==> (#[trigger] bands[k]).shows(pixel, height, workers),
    ensures
        assembled(bands, width, height, workers) == picture(pixel, width, height),
{
    let image = assembled(bands, width, height, workers);
    assert forall|p: int| 0 <= p < image.len() implies image[p] == picture(pixel, width, height)[p] by {
        let w = width as int;
        assert(w > 0) by (nonlinear_arith)
            requires
                0 <= p < width * height,
                w == width,
        ;
        let x = p % w;
        let y = p / w;
        lemma_fundamental_div_mod(p, w);
        lemma_mod_bound(p, w);
        assert(0 <= y < height) by (nonlinear_arith)
            requires
                0 <= p < w * height,
                p == w * y + x,
                0 <= x < w,
        ;
        lemma_bands_partition(y as nat, height, workers);
        let index = band_of(y as nat, height, workers);
        lemma_none_missing(bands, workers, index);
        lemma_faultless(bands, bands.len() as int, width, height, workers);
    }
}

/// Determinism under parallelism: two sets of bands of the same picture,
/// made for different numbers of workers, assemble to the same image.
pub proof fn lemma_worker_count_is_immaterial(
    pixel: spec_fn(int, int) -> RGB,
    width: nat,
    height: nat,
    workers_a: nat,
    bands_a: Seq<BandView>,
    workers_b: nat,
    bands_b: Seq<BandView>,
)
    requires
        workers_a > 0,
        workers_b > 0,
        complete(bands_a, width, height, workers_a),
        complete(bands_b, width, height, workers_b),
        forall|k: int|
            0 <= k < bands_a.len() ==> (#[trigger] bands_a[k]).shows(pixel, height, workers_a),
        forall|k: int|
            0 <= k < bands_b.len() ==> (#[trigger] bands_b[k]).shows(pixel, height, workers_b),
    ensures
        assembled(bands_a, width, height, workers_a) == assembled(
            bands_b,
            width,
            height,
            workers_b,
        ),
{
    lemma_assembled_is_picture(bands_a, pixel, width, height, workers_a);
    lemma_assembled_is_picture(bands_b, pixel, width, height, workers_b);
}

/// Bands that are complete and were each rendered by `shade` assemble to a
/// rendering of the whole canvas by `shade`, however many workers shared
/// the rows and in whatever order their bands arrived.
pub proof fn lemma_assembled_is_rendered<F: Fn(usize, usize) -> RGB>(
    frame: Frame,
    shade: F,
    canvas: Canvas,
    workers: nat,
    bands: Seq<BandView>,
)
    requires
        workers > 0,
        frame.well_formed(),
        frame_dimensions(frame) == (canvas.width as nat, canvas.height as nat),
        frame_pixels(frame) == assembled(bands, canvas.width as nat, canvas.height as nat, workers),
        complete(bands, canvas.width as nat, canvas.height as nat, workers),
        forall|k: int|
            0 <= k < bands.len() ==> band_rendered(
                #[trigger] bands[k],
                shade,
                canvas.width as nat,
                canvas.height as nat,
                workers,
            ),
    ensures
        rendered(frame, shade, canvas),
{
    let width = canvas.width as nat;
    let height = canvas.height as nat;
    assert forall|x: int, y: int| 0 <= x < width && 0 <= y < height implies call_ensures(
        shade,
        (x as usize, y as usize),
        #[trigger] frame.at(x, y),
    ) by {
        lemma_assembled_at(bands, width, height, workers, x, y);
        lemma_bands_partition(y as nat, height, workers);
        let index = band_of(y as nat, height, workers);
        lemma_none_missing(bands, workers, index);
        lemma_faultless(bands, bands.len() as int, width, height, workers);
        let band = bands[position_of(bands, index)];
        let r = y - band_start(index, height, workers);
        assert(call_ensures(
            shade,
            (x as usize, (band_start(band.index, height, workers) + r) as usize),
            band.rows[r][x],
        ));
    }
}

/// Two renderings of one canvas by one single-valued `shade` are the same
/// image, pixel for pixel.
pub proof fn lemma_renderings_agree<F: Fn(usize, usize) -> RGB>(
    shade: F,
    canvas: Canvas,
    one: Frame,
    other: Frame,
)
    requires
        single_valued(shade, canvas),
        rendered(one, shade, canvas),
        rendered(other, shade, canvas),
    ensures
        frame_dimensions(one) == frame_dimensions(other),
        frame_pixels(one) == frame_pixels(other),
{
    let w = canvas.width as int;
    assert forall|p: int| 0 <= p < frame_pixels(one).len() implies frame_pixels(one)[p]
        == frame_pixels(other)[p] by {
        assert(w > 0) by (nonlinear_arith)
            requires
                0 <= p < w * canvas.height,
        ;
        let x = p % w;
        let y = p / w;
        lemma_fundamental_div_mod(p, w);
        lemma_mod_bound(p, w);
        assert(0 <= y < canvas.height) by (nonlinear_arith)
            requires
                0 <= p < w * canvas.height,
                p == w * y + x,
                0 <= x < w,
        ;
        assert(y * w + x == p) by (nonlinear_arith)
            requires
                p == w * y + x,
        ;
        assert(call_ensures(shade, (x as usize, y as usize), one.at(x, y)));
        assert(call_ensures(shade, (x as usize, y as usize), other.at(x, y)));
    }
}

} // verus!
