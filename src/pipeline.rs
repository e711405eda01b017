use vstd::prelude::*;
use crate::glyph::RAMP_LEN;
use crate::raster::{canvas_size, fitted_pixels, resize_and_center};
use crate::rle::{convert_image_to_ascii, encode_rows, raster_cells, Raster, RleFrame};
use crate::text::{decimal, push_decimal, push_str, string_from_chars};

verus! {

/// The frame that a decoded image becomes in a `cols` x `lines` terminal:
/// the image fitted to the grid, then encoded over `GLYPH_RAMP`.
pub open spec fn frame_of_image(img: Raster, cols: u16, lines: u16) -> (nat, Seq<crate::rle::RleRun>) {
    let (tw, th) = canvas_size(cols, lines);
    (tw, encode_rows(raster_cells(fitted_pixels(img, cols, lines), RAMP_LEN as nat), tw, th))
}

/// Rasterises one decoded image for a terminal of `size` = (columns, lines).
pub fn process_single_frame(img: &Raster, size: (u16, u16)) -> (frame: RleFrame)
    requires
        img.wf(),
    ensures
        (frame.width as nat, frame.runs@) == frame_of_image(*img, size.0, size.1),
{
    let fitted = resize_and_center(img, size.0, size.1);
    convert_image_to_ascii(&fitted)
}

/// The first error of a batch, in input order, if any item failed.
pub open spec fn first_error<T, E>(results: Seq<Result<T, E>>) -> Option<E>
    decreases results.len(),
{
    if results.len() == 0 {
        None
    } else {
        match results[0] {
            Err(e) => Some(e),
            Ok(_) => first_error(results.drop_first()),
        }
    }
}

/// Gathers the results of a batch whose items were processed in any order:
/// the error of the first failed item in input order, discarding every
/// success; else all values, in input order.
pub fn collect_in_order<T, E>(results: Vec<Result<T, E>>) -> (r: Result<Vec<T>, E>)
    ensures
        match first_error(results@) {
            Some(e) => r == Err::<Vec<T>, E>(e),
            None => r matches Ok(v) && v@.len() == results@.len() && forall|i: int|
                0 <= i < results@.len() ==> results@[i] == Ok::<T, E>(#[trigger] v@[i]),
        },
{
    let ghost all = results@;
    let mut rest = results;
    let mut err: Option<E> = None;
    let mut reversed: Vec<T> = Vec::new();
    while rest.len() > 0
        invariant
            rest@.len() <= all.len(),
            rest@ == all.subrange(0, rest@.len() as int),
            err == first_error(all.subrange(rest@.len() as int, all.len() as int)),
            err is None ==> reversed@.len() == all.len() - rest@.len() && forall|j: int|
                0 <= j < reversed@.len() ==> all[all.len() - 1 - j] == Ok::<T, E>(
                    #[trigger] reversed@[j],
                ),
        decreases rest@.len(),
    {
        let ghost k = rest@.len() - 1;
        let item = rest.pop().unwrap();
        assert(all.subrange(k, all.len() as int).drop_first() =~= all.subrange(
            k + 1,
            all.len() as int,
        ));
        assert(all.subrange(k, all.len() as int)[0] == all[k]);
        match item {
            Err(e) => {
                err = Some(e);
            },
            Ok(t) => {
                if err.is_none() {
                    reversed.push(t);
                }
            },
        }
        assert(rest@ =~= all.subrange(0, rest@.len() as int));
    }
    match err {
        Some(e) => Err(e),
        None => {
            let mut values: Vec<T> = Vec::new();
            let n = reversed.len();
            while reversed.len() > 0
                invariant
                    n == all.len(),
                    reversed@.len() + values@.len() == n,
                    forall|j: int|
                        0 <= j < reversed@.len() ==> all[n - 1 - j] == Ok::<T, E>(
                            #[trigger] reversed@[j],
                        ),
                    forall|i: int| 0 <= i < values@.len() ==> all[i] == Ok::<T, E>(#[trigger] values@[i]),
                decreases reversed@.len(),
            {
                let t = reversed.pop().unwrap();
                values.push(t);
            }
            Ok(values)
        },
    }
}

/// Whether the cached artifact is tried or the frames are made afresh.
#[derive(Clone, Copy, Debug, PartialEq, Eq, Structural)]
pub enum CachePlan {
    Load,
    Regenerate,
}

/// The artifact is tried when it exists and regeneration is not forced.
pub fn cache_plan(artifact_exists: bool, regenerate: bool) -> (p: CachePlan)
    ensures
        p == (if artifact_exists && !regenerate {
            CachePlan::Load
        } else {
            CachePlan::Regenerate
        }),
{
    if artifact_exists && !regenerate {
        CachePlan::Load
    } else {
        CachePlan::Regenerate
    }
}

/// The frames of a load attempt, or `None` for a cache miss: any failure to
/// load is a miss, never an error for the caller.
pub fn cache_hit<E>(loaded: Result<Vec<RleFrame>, E>) -> (r: Option<Vec<RleFrame>>)
    ensures
        match loaded {
            Ok(v) => r == Some(v),
            Err(_) => r is None,
        },
{
    match loaded {
        Ok(v) => Some(v),
        Err(_) => None,
    }
}

/// Name of the artifact for a terminal of `cols` x `lines`, so that distinct
/// geometries never share one.
pub open spec fn cache_file_text(cols: u16, lines: u16) -> Seq<char> {
    "frames_"@ + decimal(cols as nat) + "-"@ + decimal(lines as nat) + ".acsv"@
}

pub fn cache_file_name(cols: u16, lines: u16) -> (s: String)
    ensures
        s@ == cache_file_text(cols, lines),
{
    let mut out: Vec<char> = Vec::new();
    push_str(&mut out, "frames_");
    push_decimal(&mut out, cols as u64);
    push_str(&mut out, "-");
    push_decimal(&mut out, lines as u64);
    push_str(&mut out, ".acsv");
    assert(out@ =~= cache_file_text(cols, lines));
    string_from_chars(&out)
}

} // verus!
