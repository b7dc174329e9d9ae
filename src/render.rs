use vstd::prelude::*;

use rayon::iter::IntoParallelIterator;
use rayon::iter::ParallelIterator;

use crate::image::{lemma_pixel_index_bounds, pixel_index, Image};

verus! {

/// Relies on rayon's `into_par_iter` over `0..n`, `map` and `collect` into a
/// `Vec`: `f` is applied to every index, each call on its own, and the
/// results come back in index order.
#[verifier::external_body]
fn par_map_indices<T, F>(n: usize, f: &F) -> (r: Vec<T>)
    where
        T: Send,
        F: Fn(usize) -> T + Sync,
    requires
        forall|i: usize| i < n ==> f.requires((i,)),
    ensures
        r@.len() == n,
        forall|i: int| 0 <= i < n ==> f.ensures((i as usize,), #[trigger] r@[i]),
{
    (0..n).into_par_iter().map(f).collect()
}

/// The row that pixel row `y` of an image `height` rows tall shows on the
/// viewport, counted from the bottom: the image's top row is the viewport's
/// highest.
pub open spec fn viewport_row(height: int, y: int) -> int {
    height - 1 - y
}

/// Every pixel `(x, y)` of `image` is a color that `shade` can give for
/// column `x` and viewport row `height - 1 - y`.
pub open spec fn shaded_by<P, F: Fn(u32, u32) -> P>(image: Image<P>, shade: F) -> bool {
    forall|x: int, y: int|
        #![trigger image.pixel(x, y)]
        image.in_bounds(x, y) ==> shade.ensures(
            (x as u32, viewport_row(image.spec_height() as int, y) as u32),
            image.pixel(x, y),
        )
}

/// Where `shade` has a single possible result for every pixel, the image that
/// it fills is determined: two renders of one scene under one shading agree
/// bit for bit.
pub proof fn lemma_render_deterministic<P, F: Fn(u32, u32) -> P>(a: Image<P>, b: Image<P>, shade: F)
    requires
        a.wf(),
        b.wf(),
        a.spec_width() == b.spec_width(),
        a.spec_height() == b.spec_height(),
        shaded_by(a, shade),
        shaded_by(b, shade),
        forall|args: (u32, u32), p: P, q: P|
            shade.ensures(args, p) && shade.ensures(args, q) ==> p == q,
    ensures
        a@ == b@,
{
    assert forall|i: int| 0 <= i < a@.len() implies a@[i] == b@[i] by {
        let (x, y) = lemma_cell_of_index(a.spec_width() as int, a.spec_height() as int, i);
        assert(a.in_bounds(x, y));
        assert(b.in_bounds(x, y));
        assert(shade.ensures((x as u32, viewport_row(a.spec_height() as int, y) as u32), a.pixel(x, y)));
        assert(shade.ensures((x as u32, viewport_row(b.spec_height() as int, y) as u32), b.pixel(x, y)));
    }
    assert(a@ =~= b@);
}

/// Where `shade` gives one color for every pixel (as it does for a scene
/// with nothing in it, where every ray sees the background), the image that
/// it fills holds that color in every cell.
pub proof fn lemma_render_uniform<P, F: Fn(u32, u32) -> P>(image: Image<P>, shade: F, color: P)
    requires
        image.wf(),
        shaded_by(image, shade),
        forall|args: (u32, u32), p: P| shade.ensures(args, p) ==> p == color,
    ensures
        forall|i: int| 0 <= i < image@.len() ==> image@[i] == color,
{
    assert forall|i: int| 0 <= i < image@.len() implies image@[i] == color by {
        let (x, y) = lemma_cell_of_index(image.spec_width() as int, image.spec_height() as int, i);
        assert(image.in_bounds(x, y));
        assert(shade.ensures(
            (x as u32, viewport_row(image.spec_height() as int, y) as u32),
            image.pixel(x, y),
        ));
    }
}

/// The cell `(x, y)` that storage index `i` of a `width` by `height` grid
/// holds.
proof fn lemma_cell_of_index(width: int, height: int, i: int) -> (cell: (int, int))
    requires
        0 <= width,
        0 <= height,
        0 <= i < width * height,
    ensures
        0 <= cell.0 < width,
        0 <= cell.1 < height,
        pixel_index(width, cell.0, cell.1) == i,
{
    assert(width > 0) by (nonlinear_arith)
        requires
            0 <= i < width * height,
            0 <= width,
            0 <= height,
    ;
    let x = i % width;
    let y = i / width;
    assert(i == y * width + x && 0 <= x < width) by (nonlinear_arith)
        requires
            width > 0,
            x == i % width,
            y == i / width,
    ;
    assert(0 <= y < height) by (nonlinear_arith)
        requires
            width > 0,
            0 <= i < width * height,
            i == y * width + x,
            0 <= x < width,
    ;
    (x, y)
}

/// Fills every pixel of `image` with the color that `shade` gives for it.
/// `shade(x, v)` is asked for column `x` and viewport row `v`, counted from
/// the bottom, so pixel `(x, y)` gets `shade(x, height - 1 - y)`. Rows and the
/// pixels within a row are shaded in parallel; each pixel is computed on its
/// own and written to its own cell.
pub fn render<P, F>(image: &mut Image<P>, shade: &F)
    where
        P: Send + Copy,
        F: Fn(u32, u32) -> P + Sync,
    requires
        old(image).wf(),
        forall|x: u32, v: u32|
            x < old(image).spec_width() && v < old(image).spec_height() ==> shade.requires((x, v)),
    ensures
        final(image).wf(),
        final(image).spec_width() == old(image).spec_width(),
        final(image).spec_height() == old(image).spec_height(),
        shaded_by(*final(image), *shade),
{
    let width = image.width();
    let height = image.height();
    let row_of = |j: usize| -> (row: Vec<P>)
        requires
            j < height,
            forall|x: u32, v: u32| x < width && v < height ==> shade.requires((x, v)),
        ensures
            row@.len() == width,
            forall|i: int|
                0 <= i < width ==> shade.ensures(
                    (i as u32, viewport_row(height as int, j as int) as u32),
                    #[trigger] row@[i],
                ),
        {
            let v: u32 = height - 1 - j as u32;
            let pixel_of = |i: usize| -> (p: P)
                requires
                    i < width,
                    forall|x: u32, v: u32| x < width && v < height ==> shade.requires((x, v)),
                ensures
                    shade.ensures((i as u32, v), p),
                { shade(i as u32, v) };
            par_map_indices(width as usize, &pixel_of)
        };
    let rows = par_map_indices(height as usize, &row_of);
    assert(width as int * height as int <= usize::MAX);
    let mut pixels: Vec<P> = Vec::new();
    let mut y: usize = 0;
    while y < height as usize
        invariant
            rows@.len() == height,
            forall|j: int|
                0 <= j < height ==> #[trigger] rows@[j]@.len() == width && forall|i: int|
                    0 <= i < width ==> shade.ensures(
                        (i as u32, viewport_row(height as int, j) as u32),
                        #[trigger] rows@[j]@[i],
                    ),
            y <= height,
            width as int * height as int <= usize::MAX,
            pixels@.len() == y * width,
            forall|yy: int, xx: int|
                #![trigger pixels@[pixel_index(width as int, xx, yy)]]
                0 <= yy < y && 0 <= xx < width ==> pixels@[pixel_index(width as int, xx, yy)]
                    == rows@[yy]@[xx],
        decreases height - y,
    {
        let row = &rows[y];
        let mut x: usize = 0;
        while x < width as usize
            invariant
                row@ == rows@[y as int]@,
                row@.len() == width,
                y < height,
                x <= width,
                width as int * height as int <= usize::MAX,
                pixels@.len() == y * width + x,
                forall|yy: int, xx: int|
                    #![trigger pixels@[pixel_index(width as int, xx, yy)]]
                    (0 <= yy < y && 0 <= xx < width) || (yy == y && 0 <= xx < x)
                        ==> pixels@[pixel_index(width as int, xx, yy)] == rows@[yy]@[xx],
            decreases width - x,
        {
            let ghost before = pixels@;
            pixels.push(row[x]);
            proof {
                assert forall|yy: int, xx: int|
                    (0 <= yy < y && 0 <= xx < width) || (yy == y && 0 <= xx <= x) implies
                    pixels@[pixel_index(width as int, xx, yy)] == rows@[yy]@[xx] by {
                    if yy < y {
                        lemma_pixel_index_bounds(width as int, y as int, xx, yy);
                        assert(width as int * y as int == y as int * width as int)
                            by (nonlinear_arith);
                        assert(pixels@[pixel_index(width as int, xx, yy)] == before[pixel_index(
                            width as int,
                            xx,
                            yy,
                        )]);
                    } else if xx < x {
                        assert(pixels@[pixel_index(width as int, xx, yy)] == before[pixel_index(
                            width as int,
                            xx,
                            yy,
                        )]);
                    }
                }
            }
            x += 1;
        }
        proof {
            assert((y + 1) * width == y * width + width) by (nonlinear_arith);
        }
        y += 1;
    }
    assert(pixels@.len() == width as int * height as int) by (nonlinear_arith)
        requires
            pixels@.len() == y * width,
            y == height,
    ;
    *image = Image::from_pixels(width, height, pixels);
}

} // verus!
