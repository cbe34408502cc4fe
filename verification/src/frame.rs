//! The frame container: a fixed-size 2-D buffer of copyable scalars.
//!
//! The buffer is laid out column-major: linear index `i` holds the pixel at
//! `x = i / height`, `y = i % height`, so column `x` is the contiguous run
//! `buffer[x * height .. (x + 1) * height]`.  Synthesis (`set_pixels`) and
//! enumeration (`for_each_pixel`) both use this one mapping.

use vstd::prelude::*;

use rayon::prelude::ParallelIterator;
use rayon::prelude::IndexedParallelIterator;
use rayon::prelude::IntoParallelRefMutIterator;

use crate::raster::{image_dims, image_new, image_pixels, image_set_pixel, raster_coords};

verus! {

/// Column index of the pixel stored at linear position `i`.
pub open spec fn x_of(i: int, height: int) -> int {
    i / height
}

/// Row index of the pixel stored at linear position `i`.
pub open spec fn y_of(i: int, height: int) -> int {
    i % height
}

/// Every linear index below `width * height` decodes to a coordinate pair
/// inside `[0, width) x [0, height)`, and re-encodes to itself.
pub proof fn lemma_divmod_bounds(i: int, width: int, height: int)
    requires
        0 <= i,
        0 < height,
        i < width * height,
    ensures
        0 <= x_of(i, height) < width,
        0 <= y_of(i, height) < height,
        i == x_of(i, height) * height + y_of(i, height),
{
    vstd::arithmetic::div_mod::lemma_fundamental_div_mod(i, height);
    vstd::arithmetic::div_mod::lemma_mod_bound(i, height);
    vstd::arithmetic::div_mod::lemma_div_pos_is_pos(i, height);
    vstd::arithmetic::mul::lemma_mul_is_commutative(height, i / height);
    if i / height >= width {
        vstd::arithmetic::mul::lemma_mul_inequality(width, i / height, height);
        vstd::arithmetic::mul::lemma_mul_is_commutative(width, height);
        assert(false);
    }
}

/// Every coordinate pair inside `[0, width) x [0, height)` is reached from
/// exactly one linear index, namely `x * height + y`: that index is in range
/// and decodes back to `(x, y)`.  Together with `lemma_divmod_bounds` this
/// says the enumeration of linear indices visits each coordinate exactly once.
pub proof fn lemma_coords_exactly_once(width: int, height: int, x: int, y: int)
    requires
        0 <= x < width,
        0 <= y < height,
    ensures
        0 <= x * height + y < width * height,
        x_of(x * height + y, height) == x,
        y_of(x * height + y, height) == y,
{
    vstd::arithmetic::mul::lemma_mul_inequality(x, width - 1, height);
    vstd::arithmetic::mul::lemma_mul_is_distributive_sub_other_way(height, width, 1);
    vstd::arithmetic::mul::lemma_mul_is_commutative(width - 1, height);
    vstd::arithmetic::mul::lemma_mul_is_commutative(width, height);
    assert(x * height + y < width * height);
    vstd::arithmetic::mul::lemma_mul_nonnegative(x, height);
    vstd::arithmetic::div_mod::lemma_fundamental_div_mod_converse(
        x * height + y,
        height,
        x,
        y,
    );
}

/// A fixed-size 2-D buffer of `width * height` scalars, never resized after
/// construction.
pub struct Frame<T> {
    width: u32,
    height: u32,
    buffer: Vec<T>,
}

impl<T> View for Frame<T> {
    type V = Seq<T>;

    closed spec fn view(&self) -> Seq<T> {
        self.buffer@
    }
}

impl<T: Copy + Send + Sync> Frame<T> {
    pub closed spec fn spec_width(self) -> u32 {
        self.width
    }

    pub closed spec fn spec_height(self) -> u32 {
        self.height
    }

    /// The container invariant: the buffer holds one slot per coordinate, and
    /// the pixel count fits the `u32` indices used by the coordinate mapping.
    pub open spec fn wf(self) -> bool {
        &&& self@.len() == self.spec_width() * self.spec_height()
        &&& self.spec_width() * self.spec_height() <= u32::MAX
    }

    /// The value stored for coordinate `(x, y)`.
    pub open spec fn pixel_at(self, x: int, y: int) -> T {
        self@[x * self.spec_height() + y]
    }

    pub fn width(&self) -> (w: u32)
        ensures
            w == self.spec_width(),
    {
        self.width
    }

    pub fn height(&self) -> (h: u32)
        ensures
            h == self.spec_height(),
    {
        self.height
    }

    /// Allocates a `width * height` frame with every pixel set to `value`.
    pub fn new(width: u32, height: u32, value: T) -> (frame: Self)
        requires
            width * height <= u32::MAX,
        ensures
            frame.wf(),
            frame.spec_width() == width,
            frame.spec_height() == height,
            frame@.len() == width * height,
            forall|i: int| 0 <= i < frame@.len() ==> frame@[i] == value,
    {
        let n: usize = (width as usize) * (height as usize);
        let mut buffer: Vec<T> = Vec::new();
        while buffer.len() < n
            invariant
                n == width * height,
                buffer.len() <= n,
                forall|i: int| 0 <= i < buffer@.len() ==> buffer@[i] == value,
            decreases n - buffer.len(),
        {
            buffer.push(value);
        }
        Frame { width, height, buffer }
    }

    /// All stored values, in linear buffer order.
    pub fn pixel_values(&self) -> (vals: Vec<T>)
        ensures
            vals@ == self@,
    {
        let mut vals: Vec<T> = Vec::new();
        let mut i: usize = 0;
        while i < self.buffer.len()
            invariant
                i <= self@.len(),
                vals@ == self@.subrange(0, i as int),
            decreases self@.len() - i,
        {
            vals.push(self.buffer[i]);
            proof {
                assert(vals@ =~= self@.subrange(0, i + 1 as int));
            }
            i += 1;
        }
        proof {
            assert(vals@ =~= self@);
        }
        vals
    }

    /// Computes a new value for every pixel in parallel, each from its own
    /// coordinates alone, and stores it at that pixel's slot.  This is the
    /// sole mutation path after construction.
    pub fn set_pixels<F>(&mut self, f: F) where F: Fn(u32, u32) -> T + Send + Sync
        requires
            old(self).wf(),
            forall|x: u32, y: u32|
                x < old(self).spec_width() && y < old(self).spec_height() ==> call_requires(
                    f,
                    (x, y),
                ),
        ensures
            final(self).wf(),
            final(self).spec_width() == old(self).spec_width(),
            final(self).spec_height() == old(self).spec_height(),
            final(self)@.len() == old(self)@.len(),
            forall|x: u32, y: u32|
                x < final(self).spec_width() && y < final(self).spec_height() ==> call_ensures(
                    f,
                    (x, y),
                    #[trigger] final(self).pixel_at(x as int, y as int),
                ),
    {
        let w = self.width;
        let h = self.height;
        proof {
            assert forall|i: int| 0 <= i < self@.len() implies call_requires(
                f,
                ((x_of(i, h as int) as u32, y_of(i, h as int) as u32)),
            ) by {
                if h == 0 {
                    vstd::arithmetic::mul::lemma_mul_by_zero_is_zero(w as int);
                }
                lemma_divmod_bounds(i, w as int, h as int);
            }
            if h == 0 {
                vstd::arithmetic::mul::lemma_mul_by_zero_is_zero(w as int);
            }
        }
        par_fill(&mut self.buffer, h, f);
        proof {
            assert forall|x: u32, y: u32| x < w && y < h implies call_ensures(
                f,
                (x, y),
                self.pixel_at(x as int, y as int),
            ) by {
                lemma_coords_exactly_once(w as int, h as int, x as int, y as int);
                let j = x as int * h as int + y as int;
                assert(call_ensures(
                    f,
                    ((x_of(j, h as int) as u32, y_of(j, h as int) as u32)),
                    self@[j],
                ));
            }
        }
    }

    /// Sequentially visits every pixel exactly once, in linear buffer order,
    /// handing the visitor the pixel's coordinates and current value.  The
    /// frame itself is unmodified.
    pub fn for_each_pixel<F>(&self, f: F) where F: Fn(u32, u32, T)
        requires
            self.wf(),
            forall|x: u32, y: u32|
                x < self.spec_width() && y < self.spec_height() ==> call_requires(
                    f,
                    (x, y, self.pixel_at(x as int, y as int)),
                ),
    {
        let w = self.width;
        let h = self.height;
        let n = self.buffer.len();
        let mut i: usize = 0;
        while i < n
            invariant
                self.wf(),
                i <= n,
                n == self@.len(),
                w == self.spec_width(),
                h == self.spec_height(),
                forall|x: u32, y: u32|
                    x < w && y < h ==> call_requires(
                        f,
                        (x, y, self.pixel_at(x as int, y as int)),
                    ),
            decreases n - i,
        {
            let x = (i as u32) / h;
            let y = (i as u32) % h;
            proof {
                lemma_divmod_bounds(i as int, w as int, h as int);
                assert(self.pixel_at(x as int, y as int) == self@[i as int]);
            }
            f(x, y, self.buffer[i]);
            i += 1;
        }
    }

    /// Builds a raster image of the frame's dimensions by applying `f` to
    /// every pixel value; the pixel at `(x, y)` of the image gets the color
    /// of the value stored for `(x, y)`.
    pub(crate) fn to_bmp<F>(&self, f: F) -> (img: bmp::Image) where F: Fn(T) -> (u8, u8, u8)
        requires
            self.wf(),
            self.spec_width() > 0,
            self.spec_height() > 0,
            4 * (self.spec_width() as int) * (self.spec_height() as int) <= u32::MAX as int,
            forall|k: int| 0 <= k < self@.len() ==> call_requires(f, (#[trigger] self@[k],)),
        ensures
            image_dims(img) == (self.spec_width(), self.spec_height()),
            image_pixels(img).dom() == raster_coords(self.spec_width(), self.spec_height()),
            forall|x: u32, y: u32|
                x < self.spec_width() && y < self.spec_height() ==> call_ensures(
                    f,
                    (self.pixel_at(x as int, y as int),),
                    #[trigger] image_pixels(img)[(x, y)],
                ),
    {
        let w = self.width;
        let h = self.height;
        let n = self.buffer.len();
        let mut img = image_new(w, h);
        let mut i: usize = 0;
        while i < n
            invariant
                self.wf(),
                i <= n,
                n == self@.len(),
                w == self.spec_width(),
                h == self.spec_height(),
                w > 0,
                h > 0,
                forall|k: int| 0 <= k < n ==> call_requires(f, (#[trigger] self@[k],)),
                image_dims(img) == (w, h),
                image_pixels(img).dom() == raster_coords(w, h),
                forall|j: int|
                    0 <= j < i ==> call_ensures(
                        f,
                        (self@[j],),
                        #[trigger] image_pixels(img)[
                            ((x_of(j, h as int) as u32, y_of(j, h as int) as u32))
                        ],
                    ),
            decreases n - i,
        {
            let x = (i as u32) / h;
            let y = (i as u32) % h;
            proof {
                lemma_divmod_bounds(i as int, w as int, h as int);
            }
            let ghost prev = image_pixels(img);
            let (r, g, b) = f(self.buffer[i]);
            image_set_pixel(&mut img, x, y, r, g, b);
            proof {
                assert(image_pixels(img).dom() =~= raster_coords(w, h));
                assert forall|j: int| 0 <= j < i implies call_ensures(
                    f,
                    (self@[j],),
                    image_pixels(img)[
                        ((x_of(j, h as int) as u32, y_of(j, h as int) as u32))
                    ],
                ) by {
                    lemma_divmod_bounds(j, w as int, h as int);
                    if x_of(j, h as int) as u32 == x && y_of(j, h as int) as u32 == y {
                        assert(x_of(j, h as int) == i as int / h as int);
                        assert(y_of(j, h as int) == i as int % h as int);
                        assert(j == i as int);
                        assert(false);
                    }
                    assert(image_pixels(img)[
                        ((x_of(j, h as int) as u32, y_of(j, h as int) as u32))
                    ] == prev[((x_of(j, h as int) as u32, y_of(j, h as int) as u32))]);
                }
            }
            i += 1;
        }
        proof {
            assert forall|x: u32, y: u32| x < w && y < h implies call_ensures(
                f,
                (self.pixel_at(x as int, y as int),),
                image_pixels(img)[(x, y)],
            ) by {
                lemma_coords_exactly_once(w as int, h as int, x as int, y as int);
                let j = x as int * h as int + y as int;
                assert(call_ensures(
                    f,
                    (self@[j],),
                    image_pixels(img)[
                        ((x_of(j, h as int) as u32, y_of(j, h as int) as u32))
                    ],
                ));
            }
        }
        img
    }
}

/// Law: after `set_pixels(f)` the sequential enumeration observes, at each
/// coordinate, a value `f` produced for exactly that coordinate.  The visit
/// of linear position `i` hands over the coordinates `(x_of(i), y_of(i))`
/// together with the stored value, and that value satisfies `f`'s contract
/// for those very coordinates — independent of how the parallel synthesis
/// was scheduled.
pub proof fn lemma_set_then_observe<T, F>(frame: Frame<T>, f: F) where
    T: Copy + Send + Sync,
    F: Fn(u32, u32) -> T,

    requires
        frame.wf(),
        forall|x: u32, y: u32|
            x < frame.spec_width() && y < frame.spec_height() ==> call_ensures(
                f,
                (x, y),
                #[trigger] frame.pixel_at(x as int, y as int),
            ),
    ensures
        forall|i: int|
            0 <= i < frame@.len() ==> call_ensures(
                f,
                (
                    (
                        x_of(i, frame.spec_height() as int) as u32,
                        y_of(i, frame.spec_height() as int) as u32,
                    )
                ),
                #[trigger] frame@[i],
            ),
{
    let w = frame.spec_width() as int;
    let h = frame.spec_height() as int;
    assert forall|i: int| 0 <= i < frame@.len() implies call_ensures(
        f,
        ((x_of(i, h) as u32, y_of(i, h) as u32)),
        frame@[i],
    ) by {
        if h == 0 {
            vstd::arithmetic::mul::lemma_mul_by_zero_is_zero(w);
        }
        lemma_divmod_bounds(i, w, h);
        assert(frame.pixel_at(x_of(i, h), y_of(i, h)) == frame@[i]);
    }
}

/// Relies on rayon's `par_iter_mut` / `enumerate` / `for_each`: every slot
/// `i` of the buffer is overwritten, exactly once and with no other effect,
/// by the value `f(i / height, i % height)`, the calls running in parallel.
#[verifier::external_body]
fn par_fill<T, F>(buffer: &mut Vec<T>, height: u32, f: F) where
    T: Copy + Send + Sync,
    F: Fn(u32, u32) -> T + Send + Sync,

    requires
        old(buffer).len() <= u32::MAX,
        old(buffer).len() > 0 ==> height > 0,
        forall|i: int|
            0 <= i < old(buffer).len() ==> call_requires(
                f,
                ((x_of(i, height as int) as u32, y_of(i, height as int) as u32)),
            ),
    ensures
        final(buffer).len() == old(buffer).len(),
        forall|i: int|
            0 <= i < final(buffer).len() ==> call_ensures(
                f,
                ((x_of(i, height as int) as u32, y_of(i, height as int) as u32)),
                #[trigger] final(buffer)[i],
            ),
{
    buffer.par_iter_mut().enumerate().for_each(|(i, px)| {
        let x = (i as u32) / height;
        let y = (i as u32) % height;
        *px = f(x, y);
    });
}

} // verus!
