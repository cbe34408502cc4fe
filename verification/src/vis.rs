//! The visualization adapters: min/max reduction over a frame's scalars with
//! sentinel handling, and the normalize-and-colorize conversion to a raster
//! image.

use vstd::prelude::*;

use crate::frame::Frame;
use crate::lerp::{inv_lerp, lemma_round255_range, round255, scale_to_level};
use crate::raster::{image_dims, image_pixels, raster_coords};

verus! {

/// The sentinel a depth frame stores where a ray hit nothing.
pub const MISS: u32 = 0xFFFF_FFFF;

/// The failure of a conversion whose input offers no usable range to
/// normalize over, reported as a value so a caller can skip the
/// visualization; caller errors (a coefficient out of range) are instead
/// ruled out by preconditions.
#[derive(Clone, Copy, Debug, PartialEq, Eq, Structural)]
pub enum VisError {
    DegenerateInput,
}

/// Whether a scan keeps `v`: everything is kept unless it equals the scan's
/// sentinel.
pub open spec fn kept(v: u32, sentinel: Option<u32>) -> bool {
    sentinel != Some(v)
}

/// How many values of `s` a scan with the given sentinel keeps.
pub open spec fn kept_count(s: Seq<u32>, sentinel: Option<u32>) -> nat
    decreases s.len(),
{
    if s.len() == 0 {
        0
    } else {
        kept_count(s.drop_last(), sentinel) + if kept(s.last(), sentinel) {
            1nat
        } else {
            0nat
        }
    }
}

/// The smallest kept value of `s`; meaningful only when one is kept.
pub open spec fn kept_min(s: Seq<u32>, sentinel: Option<u32>) -> u32
    decreases s.len(),
{
    if s.len() == 0 {
        0u32
    } else if !kept(s.last(), sentinel) {
        kept_min(s.drop_last(), sentinel)
    } else if kept_count(s.drop_last(), sentinel) == 0 {
        s.last()
    } else if s.last() < kept_min(s.drop_last(), sentinel) {
        s.last()
    } else {
        kept_min(s.drop_last(), sentinel)
    }
}

/// The largest kept value of `s`; meaningful only when one is kept.
pub open spec fn kept_max(s: Seq<u32>, sentinel: Option<u32>) -> u32
    decreases s.len(),
{
    if s.len() == 0 {
        0u32
    } else if !kept(s.last(), sentinel) {
        kept_max(s.drop_last(), sentinel)
    } else if kept_count(s.drop_last(), sentinel) == 0 {
        s.last()
    } else if s.last() > kept_max(s.drop_last(), sentinel) {
        s.last()
    } else {
        kept_max(s.drop_last(), sentinel)
    }
}

/// Every kept value sits between the scan's minimum and maximum.
pub proof fn lemma_kept_bounds(s: Seq<u32>, sentinel: Option<u32>, i: int)
    requires
        0 <= i < s.len(),
        kept(s[i], sentinel),
    ensures
        kept_count(s, sentinel) > 0,
        kept_min(s, sentinel) <= s[i] <= kept_max(s, sentinel),
    decreases s.len(),
{
    if i == s.len() - 1 {
        if kept_count(s.drop_last(), sentinel) > 0 {
            lemma_kept_min_max(s.drop_last(), sentinel);
        }
    } else {
        lemma_kept_bounds(s.drop_last(), sentinel, i);
        assert(s.drop_last()[i] == s[i]);
    }
}

/// The scan's minimum and maximum are themselves kept values, in order.
pub proof fn lemma_kept_min_max(s: Seq<u32>, sentinel: Option<u32>)
    requires
        kept_count(s, sentinel) > 0,
    ensures
        kept(kept_min(s, sentinel), sentinel),
        kept(kept_max(s, sentinel), sentinel),
        kept_min(s, sentinel) <= kept_max(s, sentinel),
    decreases s.len(),
{
    if s.len() > 0 {
        if kept_count(s.drop_last(), sentinel) > 0 {
            lemma_kept_min_max(s.drop_last(), sentinel);
        }
    }
}

/// A scan that keeps exactly one value has equal extrema.
pub proof fn lemma_one_kept_is_degenerate(s: Seq<u32>, sentinel: Option<u32>)
    requires
        kept_count(s, sentinel) == 1,
    ensures
        kept_min(s, sentinel) == kept_max(s, sentinel),
    decreases s.len(),
{
    if s.len() > 0 {
        if kept(s.last(), sentinel) {
            assert(kept_count(s.drop_last(), sentinel) == 0);
        } else {
            lemma_one_kept_is_degenerate(s.drop_last(), sentinel);
        }
    }
}

/// The min/max reduction: one sequential pass over the values, skipping the
/// sentinel if one is given.  Returns the extrema of the kept values, or
/// nothing when no value is kept.
fn scan_bounds(vals: &Vec<u32>, sentinel: Option<u32>) -> (r: Option<(u32, u32)>)
    ensures
        r is Some <==> kept_count(vals@, sentinel) > 0,
        r matches Some(mm) ==> mm.0 == kept_min(vals@, sentinel) && mm.1 == kept_max(
            vals@,
            sentinel,
        ),
{
    let mut found: Option<(u32, u32)> = None;
    let mut i: usize = 0;
    while i < vals.len()
        invariant
            i <= vals@.len(),
            found is Some <==> kept_count(vals@.subrange(0, i as int), sentinel) > 0,
            found matches Some(mm) ==> mm.0 == kept_min(vals@.subrange(0, i as int), sentinel)
                && mm.1 == kept_max(vals@.subrange(0, i as int), sentinel),
        decreases vals@.len() - i,
    {
        let v = vals[i];
        let keep = match sentinel {
            Some(s) => v != s,
            None => true,
        };
        proof {
            assert(vals@.subrange(0, i + 1 as int).drop_last() =~= vals@.subrange(0, i as int));
            assert(vals@.subrange(0, i + 1 as int).last() == vals@[i as int]);
        }
        if keep {
            found = match found {
                None => Some((v, v)),
                Some((mn, mx)) => Some(
                    (
                        if v < mn {
                            v
                        } else {
                            mn
                        },
                        if v > mx {
                            v
                        } else {
                            mx
                        },
                    ),
                ),
            };
        }
        i += 1;
    }
    proof {
        assert(vals@.subrange(0, vals@.len() as int) =~= vals@);
    }
    found
}

/// The color a depth value gets: the fixed blue for the miss sentinel, and
/// otherwise the grayscale level of its position between the finite bounds,
/// inverted so that near is bright and far is dark.
pub open spec fn depth_color(v: u32, mn: u32, mx: u32) -> (u8, u8, u8) {
    if v == MISS {
        (0u8, 0u8, 255u8)
    } else {
        let l = round255(mx - v, mx - mn) as u8;
        (l, l, l)
    }
}

/// The color a heat value gets: its position between the bounds scaled to
/// the red channel.
pub open spec fn heat_color(v: u32, mn: u32, mx: u32) -> (u8, u8, u8) {
    ((round255(v - mn, mx - mn) as u8), 0u8, 0u8)
}

/// A depth frame with no usable range to normalize over: no finite value at
/// all, or all finite values equal (which covers a single finite value).
pub open spec fn depth_degenerate(s: Seq<u32>) -> bool {
    kept_count(s, Some(MISS)) == 0 || kept_min(s, Some(MISS)) == kept_max(s, Some(MISS))
}

/// A heat frame with no usable range to normalize over: empty, or all values
/// equal (which covers a single pixel).
pub open spec fn heat_degenerate(s: Seq<u32>) -> bool {
    kept_count(s, None) == 0 || kept_min(s, None) == kept_max(s, None)
}

/// Law: in a depth frame that is not degenerate, the smallest finite depth
/// maps to the brightest grayscale level and the largest finite depth to the
/// darkest, while the miss sentinel maps to the fixed blue whatever the
/// finite bounds are.
pub proof fn lemma_depth_extremes(s: Seq<u32>)
    requires
        !depth_degenerate(s),
    ensures
        depth_color(
            kept_min(s, Some(MISS)),
            kept_min(s, Some(MISS)),
            kept_max(s, Some(MISS)),
        ) == (255u8, 255u8, 255u8),
        depth_color(
            kept_max(s, Some(MISS)),
            kept_min(s, Some(MISS)),
            kept_max(s, Some(MISS)),
        ) == (0u8, 0u8, 0u8),
        forall|mn: u32, mx: u32| depth_color(MISS, mn, mx) == (0u8, 0u8, 255u8),
{
    lemma_kept_min_max(s, Some(MISS));
    let mn = kept_min(s, Some(MISS));
    let mx = kept_max(s, Some(MISS));
    lemma_round255_range((mx - mn) as int, (mx - mn) as int);
    lemma_round255_range(0, (mx - mn) as int);
}

/// Conversion of a frame to a raster image: on success the image covers the
/// frame's full coordinate grid, with the adapter's color at every
/// coordinate; a degenerate input is reported as an error, with no raster
/// produced at all.
pub trait ToBmp {
    /// The adapter's input is well formed.
    spec fn wf(&self) -> bool;

    /// The input offers no usable range to normalize over.
    spec fn degenerate(&self) -> bool;

    /// The dimensions of the raster the conversion produces.
    spec fn spec_dims(&self) -> (u32, u32);

    /// The color the conversion gives the pixel at `(x, y)`.
    spec fn color_at(&self, x: int, y: int) -> (u8, u8, u8);

    fn to_bmp(&self) -> (result: Result<bmp::Image, VisError>)
        requires
            self.wf(),
        ensures
            result is Err <==> self.degenerate(),
            result matches Err(e) ==> e == VisError::DegenerateInput,
            result matches Ok(img) ==> image_dims(img) == self.spec_dims(),
            result matches Ok(img) ==> image_pixels(img).dom() == raster_coords(
                self.spec_dims().0,
                self.spec_dims().1,
            ),
            result matches Ok(img) ==> forall|x: u32, y: u32|
                x < self.spec_dims().0 && y < self.spec_dims().1
                    ==> #[trigger] image_pixels(img)[(x, y)] == self.color_at(x as int, y as int),
    ;
}

/// A frame of depths: each value is a distance on the library's scalar
/// scale, or the `MISS` sentinel where a ray hit nothing.
pub struct Depthmap(pub Frame<u32>);

/// A frame of accumulated heat: each value is a non-negative count.
pub struct Heatmap(pub Frame<u32>);

impl ToBmp for Depthmap {
    open spec fn wf(&self) -> bool {
        &&& self.0.wf()
        &&& 4 * (self.0.spec_width() as int) * (self.0.spec_height() as int) <= u32::MAX as int
    }

    open spec fn degenerate(&self) -> bool {
        depth_degenerate(self.0@)
    }

    open spec fn spec_dims(&self) -> (u32, u32) {
        (self.0.spec_width(), self.0.spec_height())
    }

    open spec fn color_at(&self, x: int, y: int) -> (u8, u8, u8) {
        depth_color(
            self.0.pixel_at(x, y),
            kept_min(self.0@, Some(MISS)),
            kept_max(self.0@, Some(MISS)),
        )
    }

    fn to_bmp(&self) -> (result: Result<bmp::Image, VisError>) {
        let frame = &self.0;
        let vals = frame.pixel_values();
        match scan_bounds(&vals, Some(MISS)) {
            None => Err(VisError::DegenerateInput),
            Some((mn, mx)) => {
                if mn == mx {
                    Err(VisError::DegenerateInput)
                } else {
                    proof {
                        if frame.spec_width() == 0 || frame.spec_height() == 0 {
                            vstd::arithmetic::mul::lemma_mul_by_zero_is_zero(
                                frame.spec_width() as int,
                            );
                            vstd::arithmetic::mul::lemma_mul_by_zero_is_zero(
                                frame.spec_height() as int,
                            );
                            vstd::arithmetic::mul::lemma_mul_is_commutative(
                                frame.spec_width() as int,
                                frame.spec_height() as int,
                            );
                        }
                    }
                    let color = |v: u32| -> (c: (u8, u8, u8))
                        requires
                            v == MISS || (mn <= v && v <= mx && mn < mx),
                        ensures
                            c == depth_color(v, mn, mx),
                        {
                            if v == MISS {
                                (0u8, 0u8, 255u8)
                            } else {
                                let t = inv_lerp(v, mn, mx);
                                let l = scale_to_level(t.0, t.1, true);
                                (l, l, l)
                            }
                        };
                    proof {
                        assert forall|k: int| 0 <= k < frame@.len() implies call_requires(
                            color,
                            (frame@[k],),
                        ) by {
                            if frame@[k] != MISS {
                                lemma_kept_bounds(frame@, Some(MISS), k);
                            }
                        }
                    }
                    let img = frame.to_bmp(color);
                    Ok(img)
                }
            },
        }
    }
}

impl ToBmp for Heatmap {
    open spec fn wf(&self) -> bool {
        &&& self.0.wf()
        &&& 4 * (self.0.spec_width() as int) * (self.0.spec_height() as int) <= u32::MAX as int
    }

    open spec fn degenerate(&self) -> bool {
        heat_degenerate(self.0@)
    }

    open spec fn spec_dims(&self) -> (u32, u32) {
        (self.0.spec_width(), self.0.spec_height())
    }

    open spec fn color_at(&self, x: int, y: int) -> (u8, u8, u8) {
        heat_color(self.0.pixel_at(x, y), kept_min(self.0@, None), kept_max(self.0@, None))
    }

    fn to_bmp(&self) -> (result: Result<bmp::Image, VisError>) {
        let frame = &self.0;
        let vals = frame.pixel_values();
        match scan_bounds(&vals, None) {
            None => Err(VisError::DegenerateInput),
            Some((mn, mx)) => {
                if mn == mx {
                    Err(VisError::DegenerateInput)
                } else {
                    proof {
                        if frame.spec_width() == 0 || frame.spec_height() == 0 {
                            vstd::arithmetic::mul::lemma_mul_by_zero_is_zero(
                                frame.spec_width() as int,
                            );
                            vstd::arithmetic::mul::lemma_mul_by_zero_is_zero(
                                frame.spec_height() as int,
                            );
                            vstd::arithmetic::mul::lemma_mul_is_commutative(
                                frame.spec_width() as int,
                                frame.spec_height() as int,
                            );
                        }
                    }
                    let color = |v: u32| -> (c: (u8, u8, u8))
                        requires
                            mn <= v && v <= mx && mn < mx,
                        ensures
                            c == heat_color(v, mn, mx),
                        {
                            let t = inv_lerp(v, mn, mx);
                            let l = scale_to_level(t.0, t.1, false);
                            (l, 0u8, 0u8)
                        };
                    proof {
                        assert forall|k: int| 0 <= k < frame@.len() implies call_requires(
                            color,
                            (frame@[k],),
                        ) by {
                            lemma_kept_bounds(frame@, None, k);
                        }
                    }
                    let img = frame.to_bmp(color);
                    Ok(img)
                }
            },
        }
    }
}

} // verus!
