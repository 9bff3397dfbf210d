//! Rendering a frame band by band and putting the bands together.

use vstd::prelude::*;
use vstd::arithmetic::div_mod::{lemma_fundamental_div_mod, lemma_mod_bound};
use crate::assembly::{
    assembled, assembly_fault, band_rendered, delivered, first_fault, first_missing,
    lemma_assembled_is_rendered, lemma_fault_persists, lemma_faultless, lemma_missing_persists,
    lemma_none_missing, rendered, BandView,
};
use crate::bands::{
    band_of, band_rows, band_start, in_band, lemma_band_within, lemma_bands_disjoint,
    lemma_bands_partition,
};
use crate::frame::{frame_dimensions, frame_pixels, Frame};
use crate::scene::Canvas;
use crate::utils::rgb::RGB;

verus! {

/// What one worker hands back: the index of its band and the rows of that
/// band from top to bottom, each row from left to right.
#[derive(Debug)]
pub struct Band {
    pub index: usize,
    pub rows: Vec<Vec<RGB>>,
}

impl View for Band {
    type V = BandView;

    open spec fn view(&self) -> BandView {
        BandView {
            index: self.index as nat,
            rows: Seq::new(self.rows@.len(), |r: int| self.rows@[r]@),
        }
    }
}

/// The bands of a vector as mathematical values, in the same order.
pub open spec fn band_views(bands: Seq<Band>) -> Seq<BandView> {
    Seq::new(bands.len(), |k: int| bands[k]@)
}

/// Why a set of bands does not make a frame.
#[derive(Clone, Copy, Debug, PartialEq, Eq, Structural)]
pub enum FrameError {
    /// No image buffer can hold the canvas.
    CanvasTooLarge,
    /// A band carries an index that is not below the number of workers.
    UnknownBand { index: usize },
    /// A band carries the index of a band that arrived before it.
    DuplicateBand { index: usize },
    /// A band does not have the rows and columns that its index stands for.
    MalformedBand { index: usize },
    /// No band carries this index.
    MissingBand { index: usize },
}

/// Every pixel of the canvas may be handed to `shade`.
pub open spec fn shades_canvas<F: Fn(usize, usize) -> RGB>(shade: F, canvas: Canvas) -> bool {
    forall|x: usize, y: usize|
        x < canvas.width && y < canvas.height ==> call_requires(shade, (x, y))
}

/// Renders one band: every pixel of band `index` is what `shade` returned
/// for the pixel's column and its row in the image.
pub fn render_band<F: Fn(usize, usize) -> RGB>(
    canvas: &Canvas,
    workers: usize,
    index: usize,
    shade: &F,
) -> (band: Band)
    requires
        workers > 0,
        index < workers,
        shades_canvas(*shade, *canvas),
    ensures
        band@.index == index,
        band@.shaped(canvas.width as nat, canvas.height as nat, workers as nat),
        band_rendered(band@, *shade, canvas.width as nat, canvas.height as nat, workers as nat),
{
    let (first, after) = band_rows(index, canvas.height, workers);
    let mut rows: Vec<Vec<RGB>> = Vec::new();
    let mut y: usize = first;
    while y < after
        invariant
            first <= y <= after <= canvas.height,
            shades_canvas(*shade, *canvas),
            rows@.len() == y - first,
            forall|r: int| 0 <= r < rows@.len() ==> (#[trigger] rows@[r])@.len() == canvas.width,
            forall|r: int, x: int|
                0 <= r < rows@.len() && 0 <= x < canvas.width ==> call_ensures(
                    *shade,
                    (x as usize, (first + r) as usize),
                    #[trigger] rows@[r]@[x],
                ),
        decreases after - y,
    {
        let mut row: Vec<RGB> = Vec::new();
        let mut x: usize = 0;
        while x < canvas.width
            invariant
                x <= canvas.width,
                y < canvas.height,
                shades_canvas(*shade, *canvas),
                row@.len() == x,
                forall|c: int| 0 <= c < x ==> call_ensures(*shade, (c as usize, y), #[trigger] row@[c]),
            decreases canvas.width - x,
        {
            let color = shade(x, y);
            row.push(color);
            x += 1;
        }
        rows.push(row);
        y += 1;
    }
    Band { index, rows }
}

/// Whether every row has `width` pixels.
fn rows_have_width(rows: &Vec<Vec<RGB>>, width: usize) -> (ok: bool)
    ensures
        ok == (forall|r: int| 0 <= r < rows@.len() ==> (#[trigger] rows@[r])@.len() == width),
{
    let mut r: usize = 0;
    while r < rows.len()
        invariant
            r <= rows@.len(),
            forall|q: int| 0 <= q < r ==> (#[trigger] rows@[q])@.len() == width,
        decreases rows@.len() - r,
    {
        if rows[r].len() != width {
            return false;
        }
        r += 1;
    }
    true
}

/// Looks for what keeps `bands` from making a frame.
fn find_fault(canvas: &Canvas, workers: usize, bands: &Vec<Band>) -> (fault: Option<FrameError>)
    requires
        workers > 0,
    ensures
        fault == assembly_fault(*canvas, workers as nat, band_views(bands@)),
{
    if !canvas.can_buffer() {
        return Some(FrameError::CanvasTooLarge);
    }
    let ghost views = band_views(bands@);
    let ghost width = canvas.width as nat;
    let ghost height = canvas.height as nat;
    let mut seen: Vec<bool> = Vec::new();
    let mut i: usize = 0;
    while i < workers
        invariant
            i <= workers,
            seen@.len() == i,
            forall|q: int| 0 <= q < i ==> !(#[trigger] seen@[q]),
        decreases workers - i,
    {
        seen.push(false);
        i += 1;
    }
    let mut k: usize = 0;
    while k < bands.len()
        invariant
            k <= bands@.len(),
            canvas.fits_buffer(),
            views == band_views(bands@),
            width == canvas.width,
            height == canvas.height,
            seen@.len() == workers,
            forall|q: int| 0 <= q < workers ==> (#[trigger] seen@[q]) == delivered(views, k as int, q as nat),
            first_fault(views, k as int, width, height, workers as nat) is None,
        decreases bands@.len() - k,
    {
        let band = &bands[k];
        let index = band.index;
        if index >= workers {
            proof {
                lemma_fault_persists(views, k + 1, views.len() as int, width, height, workers as nat);
            }
            return Some(FrameError::UnknownBand { index });
        }
        if seen[index] {
            proof {
                lemma_fault_persists(views, k + 1, views.len() as int, width, height, workers as nat);
            }
            return Some(FrameError::DuplicateBand { index });
        }
        let (first, after) = band_rows(index, canvas.height, workers);
        if band.rows.len() != after - first || !rows_have_width(&band.rows, canvas.width) {
            proof {
                if band.rows@.len() == after - first {
                    let r = choose|r: int|
                        0 <= r < band.rows@.len() && (#[trigger] band.rows@[r])@.len() != width;
                    assert(band@.rows[r] == band.rows@[r]@);
                }
                lemma_fault_persists(views, k + 1, views.len() as int, width, height, workers as nat);
            }
            return Some(FrameError::MalformedBand { index });
        }
        seen.set(index, true);
        k += 1;
    }
    let mut index: usize = 0;
    while index < workers
        invariant
            index <= workers,
            k == bands@.len(),
            canvas.fits_buffer(),
            views == band_views(bands@),
            width == canvas.width,
            height == canvas.height,
            first_fault(views, views.len() as int, width, height, workers as nat) is None,
            seen@.len() == workers,
            forall|q: int| 0 <= q < workers ==> (#[trigger] seen@[q]) == delivered(views, k as int, q as nat),
            first_missing(views, index as nat) is None,
        decreases workers - index,
    {
        if !seen[index] {
            proof {
                lemma_missing_persists(views, (index + 1) as nat, workers as nat);
            }
            return Some(FrameError::MissingBand { index });
        }
        index += 1;
    }
    None
}

/// The first `rows` rows of `band` stand in `frame` where the band's index
/// puts them.
pub open spec fn rows_painted(
    frame: Frame,
    band: BandView,
    height: nat,
    workers: nat,
    rows: int,
    width: int,
) -> bool {
    forall|r: int, x: int|
        0 <= r < rows && 0 <= x < width ==> frame.at(
            x,
            band_start(band.index, height, workers) + r,
        ) == #[trigger] band.rows[r][x]
}

/// Copies the rows of one band to their place in the frame and leaves the
/// rows of the other bands alone.
fn paint_band(frame: &mut Frame, canvas: &Canvas, workers: usize, band: &Band)
    requires
        workers > 0,
        old(frame).well_formed(),
        frame_dimensions(*old(frame)) == (canvas.width as nat, canvas.height as nat),
        band@.shaped(canvas.width as nat, canvas.height as nat, workers as nat),
    ensures
        final(frame).well_formed(),
        frame_dimensions(*final(frame)) == frame_dimensions(*old(frame)),
        rows_painted(
            *final(frame),
            band@,
            canvas.height as nat,
            workers as nat,
            band@.rows.len() as int,
            canvas.width as int,
        ),
        forall|i: int, j: int|
            0 <= i < canvas.width && 0 <= j < canvas.height && !in_band(
                j as nat,
                band@.index,
                canvas.height as nat,
                workers as nat,
            ) ==> #[trigger] final(frame).at(i, j) == old(frame).at(i, j),
{
    let ghost before = *frame;
    let ghost view = band@;
    let (first, after) = band_rows(band.index, canvas.height, workers);
    let mut r: usize = 0;
    while r < band.rows.len()
        invariant
            r <= band.rows@.len(),
            view == band@,
            view.shaped(canvas.width as nat, canvas.height as nat, workers as nat),
            first == band_start(view.index, canvas.height as nat, workers as nat),
            after == band_start(view.index + 1, canvas.height as nat, workers as nat),
            first <= after <= canvas.height,
            frame.well_formed(),
            frame_dimensions(*frame) == (canvas.width as nat, canvas.height as nat),
            rows_painted(*frame, view, canvas.height as nat, workers as nat, r as int, canvas.width as int),
            forall|i: int, j: int|
                0 <= i < canvas.width && 0 <= j < canvas.height && !(first <= j < first + r)
                    ==> #[trigger] frame.at(i, j) == before.at(i, j),
        decreases band.rows@.len() - r,
    {
        let row = &band.rows[r];
        let y: usize = first + r;
        assert(view.rows[r as int] == row@);
        let mut x: usize = 0;
        while x < canvas.width
            invariant
                x <= canvas.width,
                r < band.rows@.len(),
                y == first + r,
                y < canvas.height,
                view == band@,
                view.rows[r as int] == row@,
                row@.len() == canvas.width,
                first == band_start(view.index, canvas.height as nat, workers as nat),
                frame.well_formed(),
                frame_dimensions(*frame) == (canvas.width as nat, canvas.height as nat),
                rows_painted(
                    *frame,
                    view,
                    canvas.height as nat,
                    workers as nat,
                    r as int,
                    canvas.width as int,
                ),
                forall|c: int| 0 <= c < x ==> frame.at(c, y as int) == #[trigger] row@[c],
                forall|i: int, j: int|
                    0 <= i < canvas.width && 0 <= j < canvas.height && !(first <= j < first + r)
                        && !(j == y && i < x) ==> #[trigger] frame.at(i, j) == before.at(i, j),
            decreases canvas.width - x,
        {
            frame.set(x as u32, y as u32, row[x]);
            x += 1;
        }
        r += 1;
    }
}

/// A frame that holds every band at its place holds the image that the
/// bands make.
proof fn lemma_painted_is_assembled(
    frame: Frame,
    bands: Seq<BandView>,
    width: nat,
    height: nat,
    workers: nat,
)
    requires
        workers > 0,
        frame.well_formed(),
        frame_dimensions(frame) == (width, height),
        first_fault(bands, bands.len() as int, width, height, workers) is None,
        first_missing(bands, workers) is None,
        forall|k: int|
            0 <= k < bands.len() ==> rows_painted(
                frame,
                #[trigger] bands[k],
                height,
                workers,
                bands[k].rows.len() as int,
                width as int,
            ),
    ensures
        frame_pixels(frame) == assembled(bands, width, height, workers),
{
    let image = assembled(bands, width, height, workers);
    assert forall|p: int| 0 <= p < image.len() implies frame_pixels(frame)[p] == image[p] by {
        let w = width as int;
        assert(w > 0) by (nonlinear_arith)
            requires
                0 <= p < width * height,
                w == width,
        ;
        let x = p % w;
        let y = p / w;
        lemma_fundamental_div_mod(p, w);
        lemma_mod_bound(p, w);
        assert(0 <= y < height) by (nonlinear_arith)
            requires
                0 <= p < w * height,
                p == w * y + x,
                0 <= x < w,
        ;
        assert(y * w + x == p) by (nonlinear_arith)
            requires
                p == w * y + x,
        ;
        lemma_bands_partition(y as nat, height, workers);
        let index = band_of(y as nat, height, workers);
        lemma_none_missing(bands, workers, index);
        lemma_faultless(bands, bands.len() as int, width, height, workers);
    }
}

/// Puts the bands that the workers delivered together into one frame.
///
/// The bands may arrive in any order: each is placed by its index. The
/// frame is made exactly where nothing is wrong with what was delivered,
/// and then holds every row of every band at its place in the image.
pub fn assemble(canvas: &Canvas, workers: usize, bands: &Vec<Band>) -> (result: Result<
    Frame,
    FrameError,
>)
    requires
        workers > 0,
    ensures
        match result {
            Ok(frame) => {
                &&& assembly_fault(*canvas, workers as nat, band_views(bands@)) is None
                &&& frame.well_formed()
                &&& frame_dimensions(frame) == (canvas.width as nat, canvas.height as nat)
                &&& frame_pixels(frame) == assembled(
                    band_views(bands@),
                    canvas.width as nat,
                    canvas.height as nat,
                    workers as nat,
                )
            },
            Err(fault) => assembly_fault(*canvas, workers as nat, band_views(bands@)) == Some(fault),
        },
{
    if let Some(fault) = find_fault(canvas, workers, bands) {
        return Err(fault);
    }
    let ghost views = band_views(bands@);
    let ghost width = canvas.width as nat;
    let ghost height = canvas.height as nat;
    proof {
        lemma_faultless(views, views.len() as int, width, height, workers as nat);
    }
    let mut frame = Frame::new(canvas.width as u32, canvas.height as u32);
    let mut k: usize = 0;
    while k < bands.len()
        invariant
            k <= bands@.len(),
            workers > 0,
            views == band_views(bands@),
            width == canvas.width,
            height == canvas.height,
            canvas.fits_buffer(),
            forall|j: int| 0 <= j < views.len() ==> (#[trigger] views[j]).shaped(width, height, workers as nat),
            forall|i: int, j: int|
                0 <= i < j < views.len() ==> (#[trigger] views[i]).index != (#[trigger] views[j]).index,
            frame.well_formed(),
            frame_dimensions(frame) == (width, height),
            forall|j: int|
                0 <= j < k ==> rows_painted(
                    frame,
                    #[trigger] views[j],
                    height,
                    workers as nat,
                    views[j].rows.len() as int,
                    width as int,
                ),
        decreases bands@.len() - k,
    {
        assert(views[k as int] == bands@[k as int]@);
        paint_band(&mut frame, canvas, workers, &bands[k]);
        proof {
            assert forall|j: int| 0 <= j < k implies rows_painted(
                frame,
                #[trigger] views[j],
                height,
                workers as nat,
                views[j].rows.len() as int,
                width as int,
            ) by {
                let done = views[j];
                let start = band_start(done.index, height, workers as nat);
                assert forall|r: int, x: int|
                    0 <= r < done.rows.len() && 0 <= x < width implies frame.at(x, start + r)
                    == #[trigger] done.rows[r][x] by {
                    let y = (start + r) as nat;
                    lemma_band_within(done.index + 1, height, workers as nat);
                    if in_band(y, views[k as int].index, height, workers as nat) {
                        lemma_bands_disjoint(
                            y,
                            done.index,
                            views[k as int].index,
                            height,
                            workers as nat,
                        );
                    }
                }
            }
        }
        k += 1;
    }
    proof {
        lemma_painted_is_assembled(frame, views, width, height, workers as nat);
    }
    Ok(frame)
}

/// Bands that stand in the order of their indices and are well shaped are
/// free of faults.
proof fn lemma_ordered_bands_faultless(
    bands: Seq<BandView>,
    upto: int,
    width: nat,
    height: nat,
    workers: nat,
)
    requires
        0 <= upto <= bands.len(),
        forall|k: int| 0 <= k < upto ==> (#[trigger] bands[k]).index == k,
        forall|k: int| 0 <= k < upto ==> (#[trigger] bands[k]).shaped(width, height, workers),
    ensures
        first_fault(bands, upto, width, height, workers) is None,
    decreases upto,
{
    if upto > 0 {
        lemma_ordered_bands_faultless(bands, upto - 1, width, height, workers);
    }
}

/// Bands that stand in the order of their indices, one for each worker,
/// leave no index out.
proof fn lemma_ordered_bands_all_there(bands: Seq<BandView>, upto: nat)
    requires
        upto <= bands.len(),
        forall|k: int| 0 <= k < bands.len() ==> (#[trigger] bands[k]).index == k,
    ensures
        first_missing(bands, upto) is None,
    decreases upto,
{
    if upto > 0 {
        lemma_ordered_bands_all_there(bands, (upto - 1) as nat);
        assert(bands[upto - 1].index == upto - 1);
    }
}

/// Renders the whole canvas on the calling thread, as `workers` bands one
/// after the other, and assembles them.
///
/// The frame is made exactly where an image buffer can hold the canvas,
/// and each of its pixels is then a result of `shade` for its position.
pub fn render_frame<F: Fn(usize, usize) -> RGB>(canvas: &Canvas, workers: usize, shade: &F) -> (result:
    Result<Frame, FrameError>)
    requires
        workers > 0,
        shades_canvas(*shade, *canvas),
    ensures
        match result {
            Ok(frame) => canvas.fits_buffer() && rendered(frame, *shade, *canvas),
            Err(fault) => !canvas.fits_buffer() && fault == FrameError::CanvasTooLarge,
        },
{
    if !canvas.can_buffer() {
        return Err(FrameError::CanvasTooLarge);
    }
    let ghost width = canvas.width as nat;
    let ghost height = canvas.height as nat;
    let mut bands: Vec<Band> = Vec::new();
    let mut index: usize = 0;
    while index < workers
        invariant
            index <= workers,
            shades_canvas(*shade, *canvas),
            width == canvas.width,
            height == canvas.height,
            bands@.len() == index,
            forall|k: int| 0 <= k < index ==> (#[trigger] bands@[k])@.index == k,
            forall|k: int| 0 <= k < index ==> (#[trigger] bands@[k])@.shaped(width, height, workers as nat),
            forall|k: int|
                0 <= k < index ==> band_rendered(
                    (#[trigger] bands@[k])@,
                    *shade,
                    width,
                    height,
                    workers as nat,
                ),
        decreases workers - index,
    {
        let band = render_band(canvas, workers, index, shade);
        bands.push(band);
        index += 1;
    }
    let ghost views = band_views(bands@);
    proof {
        assert forall|k: int| 0 <= k < views.len() implies (#[trigger] views[k]).index == k by {
        }
        assert forall|k: int| 0 <= k < views.len() implies (#[trigger] views[k]).shaped(
            width,
            height,
            workers as nat,
        ) by {
        }
        assert forall|k: int| 0 <= k < views.len() implies band_rendered(
            #[trigger] views[k],
            *shade,
            width,
            height,
            workers as nat,
        ) by {
        }
        lemma_ordered_bands_faultless(views, views.len() as int, width, height, workers as nat);
        lemma_ordered_bands_all_there(views, workers as nat);
    }
    match assemble(canvas, workers, &bands) {
        Ok(frame) => {
            proof {
                lemma_assembled_is_rendered(frame, *shade, *canvas, workers as nat, views);
            }
            Ok(frame)
        },
        Err(fault) => Err(fault),
    }
}

/// `num_cpus::get`: the number of logical processors that this process may
/// use. It differs from machine to machine and from run to run; the crate
/// documents that it is never less than 1.
#[verifier::external_body]
fn available_cpus() -> (count: usize)
    ensures
        count >= 1,
{
    num_cpus::get()
}

/// How many workers share a frame on a machine with `processors`
/// processors to use: one where parallel rendering is turned off or no
/// processor is reported, else one for each processor.
pub fn pool_size(no_parallel: bool, processors: usize) -> (workers: usize)
    ensures
        workers == if no_parallel || processors == 0 {
            1
        } else {
            processors
        },
{
    if no_parallel || processors == 0 {
        1
    } else {
        processors
    }
}

/// How many workers share a frame on this machine: one where parallel
/// rendering is turned off, else one for each processor that the process
/// may use, which are not counted in the first case.
pub fn worker_count(no_parallel: bool) -> (workers: usize)
    ensures
        workers >= 1,
        no_parallel ==> workers == 1,
{
    if no_parallel {
        pool_size(true, 1)
    } else {
        pool_size(false, available_cpus())
    }
}

} // verus!
