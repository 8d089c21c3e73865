//! Rendering: the path integrator, the split of the image into bands of rows,
//! the pixel loop of one band and the merge of the bands into one image.
use vstd::prelude::*;
use image::{ImageBuffer, Rgb};
use crate::hitable::{answers, HitRecord, Hitable};
use crate::randomutil::{thread_seedable_rng, ThreadSeedableRng};
use crate::ray::Ray3;
use crate::scalar::Scalar;
use crate::vector::Vector3;

verus! {

/// An image: the pixel buffer of the `image` crate, three channels of eight
/// bits to a pixel. Nothing is known of its fields here; what it holds is
/// named by [`pixels`] and [`dimensions`].
#[verifier::external_body]
pub struct Canvas {
    image: ImageBuffer<Rgb<u8>, Vec<u8>>,
}

/// The pixels of an image: red, green and blue at each column and row.
pub uninterp spec fn pixels(canvas: Canvas) -> Map<(u32, u32), (u8, u8, u8)>;

/// The width and height that an image was made with.
pub uninterp spec fn dimensions(canvas: Canvas) -> (u32, u32);

/// What `num_cpus::get` returns depends on the machine, so it has no name.
/// Its documentation promises a count of at least 1.
#[verifier::external_body]
fn available_cpus() -> (n: usize)
    ensures
        n >= 1,
{
    num_cpus::get()
}

/// `ImageBuffer::new`: an image of the given width and height whose buffer
/// is filled with zeros, so that every pixel is black.
#[verifier::external_body]
fn new_canvas(width: u32, height: u32) -> (canvas: Canvas)
    requires
        3 * width * height <= usize::MAX,
    ensures
        dimensions(canvas) == (width, height),
        pixels(canvas) == Map::new(
            |at: (u32, u32)| at.0 < width && at.1 < height,
            |at: (u32, u32)| (0u8, 0u8, 0u8),
        ),
{
    Canvas { image: ImageBuffer::new(width, height) }
}

/// `ImageBuffer::put_pixel`: writes the three channels at the place of the
/// buffer that belongs to column `x` of row `y`, which it finds as
/// `y * width + x` in 32 bits. Inside the image no other pixel has that
/// place, and the dimensions are left alone.
#[verifier::external_body]
fn put_pixel(canvas: &mut Canvas, x: u32, y: u32, pixel: (u8, u8, u8))
    requires
        x < dimensions(*old(canvas)).0,
        y < dimensions(*old(canvas)).1,
        y * dimensions(*old(canvas)).0 + x <= u32::MAX,
    ensures
        dimensions(*final(canvas)) == dimensions(*old(canvas)),
        pixels(*final(canvas)) == pixels(*old(canvas)).insert((x, y), pixel),
{
    canvas.image.put_pixel(x, y, Rgb { data: [pixel.0, pixel.1, pixel.2] })
}

/// `ImageBuffer::get_pixel`: reads the three channels at the place of the
/// buffer that belongs to column `x` of row `y`.
#[verifier::external_body]
fn get_pixel(canvas: &Canvas, x: u32, y: u32) -> (pixel: (u8, u8, u8))
    requires
        x < dimensions(*canvas).0,
        y < dimensions(*canvas).1,
        y * dimensions(*canvas).0 + x <= u32::MAX,
    ensures
        pixel == pixels(*canvas)[(x, y)],
{
    let p = canvas.image.get_pixel(x, y);
    (p.data[0], p.data[1], p.data[2])
}

/// `ImageBuffer::dimensions`: the width and height.
#[verifier::external_body]
fn canvas_dimensions(canvas: &Canvas) -> (d: (u32, u32))
    ensures
        d == dimensions(*canvas),
{
    canvas.image.dimensions()
}

/// `ImageBuffer::into_raw`: the buffer itself. A canvas is only ever made by
/// `ImageBuffer::new`, so the buffer holds three bytes for each pixel and
/// nothing else, the pixels of a row side by side and the rows one after the
/// other from row 0.
#[verifier::external_body]
fn canvas_into_raw(canvas: Canvas) -> (raw: Vec<u8>)
    ensures
        raw@.len() == 3 * dimensions(canvas).0 * dimensions(canvas).1,
        forall|x: u32, y: u32|
            x < dimensions(canvas).0 && y < dimensions(canvas).1 ==> {
                let at = 3 * (y * dimensions(canvas).0 + x);
                #[trigger] pixels(canvas)[(x, y)] == (raw@[at], raw@[at + 1], raw@[at + 2])
            },
{
    canvas.image.into_raw()
}

/// Whether an image holds a pixel at every column and row inside its
/// dimensions and nowhere else, and is small enough for every pixel to be
/// found.
pub open spec fn canvas_wf(canvas: Canvas) -> bool {
    &&& dimensions(canvas).0 * dimensions(canvas).1 <= u32::MAX
    &&& forall|at: (u32, u32)|
        pixels(canvas).dom().contains(at) <==> at.0 < dimensions(canvas).0 && at.1 < dimensions(
            canvas,
        ).1
}

/// A black image of the given width and height, or nothing where an image
/// of that size cannot be addressed: where it has more than `u32::MAX` pixels
/// or more than `usize::MAX` bytes.
pub fn blank(nx: u32, ny: u32) -> (img: Option<Canvas>)
    ensures
        img is Some <==> nx * ny <= u32::MAX && 3 * nx * ny <= usize::MAX,
        img matches Some(canvas) ==> {
            &&& dimensions(canvas) == (nx, ny)
            &&& canvas_wf(canvas)
            &&& forall|x: u32, y: u32|
                x < nx && y < ny ==> #[trigger] pixels(canvas)[(x, y)] == (0u8, 0u8, 0u8)
        },
{
    assert(nx * ny <= 0xffff_ffff * 0xffff_ffff && 3 * nx * ny == 3 * (nx * ny)) by (nonlinear_arith)
        requires
            nx <= 0xffff_ffff,
            ny <= 0xffff_ffff,
    ;
    let count: u64 = (nx as u64) * (ny as u64);
    if count > u32::MAX as u64 {
        return None;
    }
    let bytes: u64 = 3 * count;
    if bytes > usize::MAX as u64 {
        return None;
    }
    Some(new_canvas(nx, ny))
}

/// The pixel at column `x` of row `y`, or nothing where the image has no
/// such pixel.
pub fn pixel_at(canvas: &Canvas, x: u32, y: u32) -> (pixel: Option<(u8, u8, u8)>)
    requires
        canvas_wf(*canvas),
    ensures
        pixel is Some <==> x < dimensions(*canvas).0 && y < dimensions(*canvas).1,
        pixel matches Some(p) ==> p == pixels(*canvas)[(x, y)],
{
    let (nx, ny) = canvas_dimensions(canvas);
    if x < nx && y < ny {
        proof {
            lemma_pixel_index(x, y, nx, ny);
        }
        Some(get_pixel(canvas, x, y))
    } else {
        None
    }
}

/// A run of rows of the image, from `start` up to, not including, `top`.
#[derive(Clone, Copy, Debug, PartialEq, Eq, Structural)]
pub struct Band {
    pub start: u32,
    pub top: u32,
}

/// The rows that worker `cpu` of `num` renders of an image `ny` rows high.
///
/// Every worker takes `ny / num` rows, one worker after the other from the
/// first row on, and the last worker takes what is left as well.
pub open spec fn spec_band(cpu: int, num: int, ny: int) -> (int, int) {
    let rows = ny / num;
    (
        cpu * rows,
        if cpu == num - 1 {
            ny
        } else {
            (cpu + 1) * rows
        },
    )
}

/// The number of rows that every worker but the last renders.
pub fn band_rows(ny: u32, num: usize) -> (rows: u32)
    requires
        num > 0,
    ensures
        rows == ny as int / num as int,
{
    let rows = (ny as u64) / (num as u64);
    rows as u32
}

/// Every band starts no later than it ends, inside the image.
pub proof fn lemma_band_bounds(cpu: int, num: int, ny: int)
    requires
        0 <= cpu < num,
        0 <= ny,
    ensures
        0 <= spec_band(cpu, num, ny).0 <= spec_band(cpu, num, ny).1 <= ny,
{
    let rows = ny / num;
    assert(0 <= rows && num * rows <= ny) by (nonlinear_arith)
        requires
            rows == ny / num,
            num > 0,
            ny >= 0,
    ;
    assert(0 <= cpu * rows <= (cpu + 1) * rows <= num * rows) by (nonlinear_arith)
        requires
            0 <= cpu < num,
            0 <= rows,
    ;
}

/// The bands follow one another without a gap: the first starts at row 0,
/// each next one starts where the one before it ends, and the last ends with
/// the image.
pub proof fn lemma_bands_contiguous(cpu: int, num: int, ny: int)
    requires
        0 <= cpu < num,
        0 <= ny,
    ensures
        spec_band(0, num, ny).0 == 0,
        spec_band(num - 1, num, ny).1 == ny,
        cpu + 1 < num ==> spec_band(cpu, num, ny).1 == spec_band(cpu + 1, num, ny).0,
{
}

/// Every row of the image lies in the band of some worker; by
/// [`lemma_bands_ordered`] it lies in no other.
pub proof fn lemma_bands_cover(num: int, ny: int, row: int)
    requires
        0 < num,
        0 <= row < ny,
    ensures
        exists|cpu: int|
            0 <= cpu < num && #[trigger] spec_band(cpu, num, ny).0 <= row < spec_band(
                cpu,
                num,
                ny,
            ).1,
{
    let rows = ny / num;
    assert(0 <= rows && num * rows <= ny) by (nonlinear_arith)
        requires
            rows == ny / num,
            num > 0,
            ny >= 0,
    ;
    let last = num - 1;
    if rows == 0 || row >= last * rows {
        assert(last * rows <= row) by (nonlinear_arith)
            requires
                rows == 0 || row >= last * rows,
                0 <= row,
        ;
        assert(spec_band(last, num, ny).0 <= row < spec_band(last, num, ny).1);
    } else {
        let cpu = row / rows;
        assert(cpu * rows <= row < (cpu + 1) * rows && 0 <= cpu < last) by (nonlinear_arith)
            requires
                cpu == row / rows,
                rows > 0,
                0 <= row < last * rows,
        ;
        assert(spec_band(cpu, num, ny).0 <= row < spec_band(cpu, num, ny).1);
    }
}

/// An earlier band ends no later than a later band starts, so that no row
/// lies in two bands.
pub proof fn lemma_bands_ordered(a: int, b: int, num: int, ny: int)
    requires
        0 <= a < b < num,
        0 <= ny,
    ensures
        spec_band(a, num, ny).1 <= spec_band(b, num, ny).0,
{
    let rows = ny / num;
    assert(0 <= rows) by (nonlinear_arith)
        requires
            rows == ny / num,
            num > 0,
            ny >= 0,
    ;
    assert((a + 1) * rows <= b * rows) by (nonlinear_arith)
        requires
            a + 1 <= b,
            0 <= rows,
    ;
}

/// The rows of worker `cpu` of `num`.
pub fn band(cpu: usize, num: usize, ny: u32) -> (b: Band)
    requires
        cpu < num,
    ensures
        (b.start as int, b.top as int) == spec_band(cpu as int, num as int, ny as int),
        b.start <= b.top <= ny,
{
    let rows: u64 = (ny as u64) / (num as u64);
    proof {
        lemma_band_bounds(cpu as int, num as int, ny as int);
        assert(rows == ny as int / num as int);
    }
    let start: u64 = (cpu as u64) * rows;
    let top: u64 = if cpu == num - 1 {
        ny as u64
    } else {
        (cpu as u64 + 1) * rows
    };
    Band { start: start as u32, top: top as u32 }
}

/// The bands of all workers of this machine, one worker for each processor
/// that `num_cpus` counts, in order.
pub fn bands(ny: u32) -> (all: Vec<Band>)
    ensures
        all.len() >= 1,
        forall|cpu: int|
            0 <= cpu < all.len() ==> (#[trigger] all[cpu].start as int, all[cpu].top as int)
                == spec_band(cpu, all.len() as int, ny as int),
{
    let num = available_cpus();
    let mut all: Vec<Band> = Vec::new();
    let mut cpu: usize = 0;
    while cpu < num
        invariant
            cpu <= num,
            all.len() == cpu,
            forall|c: int|
                0 <= c < cpu ==> (#[trigger] all[c].start as int, all[c].top as int) == spec_band(
                    c,
                    num as int,
                    ny as int,
                ),
        decreases num - cpu,
    {
        all.push(band(cpu, num, ny));
        cpu += 1;
    }
    all
}

/// What shading answers for a pixel: its colour, and the generator as the
/// shading leaves it.
pub type Shaded = ((u8, u8, u8), ThreadSeedableRng);

/// The generator that the shading of pixel `i` of row `r` of a band starts
/// from: the one that the pixel before it left, the last pixel of the row
/// above for the first pixel of a row, and `start` for the first pixel of
/// all.
pub open spec fn generator_before(
    outcomes: Seq<Seq<Shaded>>,
    start: ThreadSeedableRng,
    r: int,
    i: int,
) -> ThreadSeedableRng {
    if i > 0 {
        outcomes[r][i - 1].1
    } else if r > 0 {
        outcomes[r - 1].last().1
    } else {
        start
    }
}

/// Whether answer `i` of row `r` is something that `shade` may answer for
/// that pixel, handed the pixel's column, its height above the bottom row of
/// the image, and the generator that the pixel before it left.
pub open spec fn is_shading_step<F>(
    shade: F,
    ny: u32,
    band: Band,
    start: ThreadSeedableRng,
    outcomes: Seq<Seq<Shaded>>,
    r: int,
    i: int,
) -> bool where F: Fn(u32, u32, ThreadSeedableRng) -> Shaded {
    call_ensures(
        shade,
        (i as u32, (ny - 1 - band.start - r) as u32, generator_before(outcomes, start, r, i)),
        outcomes[r][i],
    )
}

/// Whether `outcomes` is a shading of a band: one answer of `shade` for every
/// pixel, row after row from the band's first and each row from column 0 on,
/// with one generator handed from pixel to pixel, `start` to the first.
pub open spec fn is_shading<F>(
    shade: F,
    nx: u32,
    ny: u32,
    band: Band,
    start: ThreadSeedableRng,
    outcomes: Seq<Seq<Shaded>>,
) -> bool where F: Fn(u32, u32, ThreadSeedableRng) -> Shaded {
    &&& outcomes.len() == band.top - band.start
    &&& forall|r: int| 0 <= r < outcomes.len() ==> (#[trigger] outcomes[r]).len() == nx
    &&& forall|r: int, i: int|
        0 <= r < outcomes.len() && 0 <= i < nx ==> #[trigger] is_shading_step(
            shade,
            ny,
            band,
            start,
            outcomes,
            r,
            i,
        )
}

/// Whether the rows of an image from `top_row` on show the colours of a
/// shading.
pub open spec fn shows(img: Canvas, nx: u32, top_row: u32, outcomes: Seq<Seq<Shaded>>) -> bool {
    forall|i: u32, y: u32|
        i < nx && top_row <= y < top_row + outcomes.len() ==> #[trigger] pixels(img)[(i, y)]
            == outcomes[y - top_row][i as int].0
}

/// Whether an image shows, from `top_row` on, a shading of a band that
/// started from the generator `start`.
pub open spec fn band_rendered<F>(
    img: Canvas,
    nx: u32,
    ny: u32,
    band: Band,
    top_row: u32,
    start: ThreadSeedableRng,
    shade: F,
) -> bool where F: Fn(u32, u32, ThreadSeedableRng) -> Shaded {
    exists|outcomes: Seq<Seq<Shaded>>| #[trigger]
        is_shading(shade, nx, ny, band, start, outcomes) && shows(img, nx, top_row, outcomes)
}

/// Whether the answer of `shade` is settled by what it is handed: the place
/// of the pixel and the generator.
pub open spec fn settled<F>(shade: F) -> bool where F: Fn(u32, u32, ThreadSeedableRng) -> Shaded {
    forall|i: u32, j: u32, rng: ThreadSeedableRng, p: Shaded, q: Shaded|
        #![trigger call_ensures(shade, (i, j, rng), p), call_ensures(shade, (i, j, rng), q)]
        call_ensures(shade, (i, j, rng), p) && call_ensures(shade, (i, j, rng), q) ==> p == q
}

/// Where the answer of `shade` is settled by what it is handed, so is the
/// shading of a band: two shadings from one generator agree in every pixel
/// and in every generator handed on.
pub proof fn lemma_shading_settled<F>(
    shade: F,
    nx: u32,
    ny: u32,
    band: Band,
    start: ThreadSeedableRng,
    a: Seq<Seq<Shaded>>,
    b: Seq<Seq<Shaded>>,
    r: int,
    i: int,
) where F: Fn(u32, u32, ThreadSeedableRng) -> Shaded
    requires
        settled(shade),
        is_shading(shade, nx, ny, band, start, a),
        is_shading(shade, nx, ny, band, start, b),
        0 <= r < band.top - band.start,
        0 <= i < nx,
    ensures
        a[r][i] == b[r][i],
    decreases r, i,
{
    if i > 0 {
        lemma_shading_settled(shade, nx, ny, band, start, a, b, r, i - 1);
    } else if r > 0 {
        assert(a[r - 1].len() == nx);
        assert(b[r - 1].len() == nx);
        lemma_shading_settled(shade, nx, ny, band, start, a, b, r - 1, nx - 1);
    }
    assert(generator_before(a, start, r, i) == generator_before(b, start, r, i));
    assert(is_shading_step(shade, ny, band, start, a, r, i));
    assert(is_shading_step(shade, ny, band, start, b, r, i));
}

/// Renders one band into an image of its own.
///
/// The rows of the band are rendered from its first to its last, and each row
/// from column 0 on. `shade` gives the colour of a pixel from its column, its
/// height above the bottom row of the image (row `r` counted from the top is
/// `ny - 1 - r` counted from the bottom) and a generator to draw from, which
/// it hands back for the next pixel; the first pixel is handed `rng`. The
/// band's first row is written to row 0 of the image that is returned, which
/// is as large as the whole image and black below the band.
pub fn render_band<F>(nx: u32, ny: u32, band: Band, rng: ThreadSeedableRng, shade: &F) -> (sub:
    Canvas) where F: Fn(u32, u32, ThreadSeedableRng) -> Shaded
    requires
        band.start <= band.top <= ny,
        3 * nx * ny <= usize::MAX,
        nx * ny <= u32::MAX,
        forall|i: u32, j: u32, g: ThreadSeedableRng| call_requires(*shade, (i, j, g)),
    ensures
        dimensions(sub) == (nx, ny),
        canvas_wf(sub),
        band_rendered(sub, nx, ny, band, 0, rng, *shade),
        forall|i: u32, row: u32|
            i < nx && band.top - band.start <= row < ny ==> #[trigger] pixels(sub)[(i, row)] == (
                0u8,
                0u8,
                0u8,
            ),
{
    let mut sub = new_canvas(nx, ny);
    let mut current = rng;
    let ghost mut outcomes: Seq<Seq<Shaded>> = Seq::empty();
    let mut inverse_j: u32 = band.start;
    while inverse_j < band.top
        invariant
            band.start <= inverse_j <= band.top <= ny,
            nx * ny <= u32::MAX,
            dimensions(sub) == (nx, ny),
            canvas_wf(sub),
            forall|i: u32, j: u32, g: ThreadSeedableRng| call_requires(*shade, (i, j, g)),
            outcomes.len() == inverse_j - band.start,
            forall|r: int| 0 <= r < outcomes.len() ==> (#[trigger] outcomes[r]).len() == nx,
            forall|r: int, i: int|
                0 <= r < outcomes.len() && 0 <= i < nx ==> #[trigger] is_shading_step(
                    *shade,
                    ny,
                    band,
                    rng,
                    outcomes,
                    r,
                    i,
                ),
            nx > 0 ==> current == generator_before(outcomes, rng, outcomes.len() as int, 0),
            shows(sub, nx, 0, outcomes),
            forall|i: u32, row: u32|
                i < nx && inverse_j - band.start <= row < ny ==> #[trigger] pixels(sub)[(i, row)]
                    == (0u8, 0u8, 0u8),
        decreases band.top - inverse_j,
    {
        let j: u32 = ny - inverse_j - 1;
        let y: u32 = inverse_j - band.start;
        let ghost row_start = current;
        let ghost mut done: Seq<Shaded> = Seq::empty();
        let mut i: u32 = 0;
        while i < nx
            invariant
                band.start <= inverse_j < band.top <= ny,
                j == ny - inverse_j - 1,
                y == inverse_j - band.start,
                i <= nx,
                nx * ny <= u32::MAX,
                dimensions(sub) == (nx, ny),
                canvas_wf(sub),
                forall|i: u32, j: u32, g: ThreadSeedableRng| call_requires(*shade, (i, j, g)),
                outcomes.len() == y,
                done.len() == i,
                current == (if i > 0 {
                    done[i - 1].1
                } else {
                    row_start
                }),
                forall|c: int|
                    0 <= c < i ==> call_ensures(
                        *shade,
                        (
                            c as u32,
                            j,
                            if c > 0 {
                                done[c - 1].1
                            } else {
                                row_start
                            },
                        ),
                        #[trigger] done[c],
                    ),
                forall|c: u32| c < i ==> #[trigger] pixels(sub)[(c, y)] == done[c as int].0,
                shows(sub, nx, 0, outcomes),
                forall|c: u32, row: u32|
                    c < nx && y < row < ny ==> #[trigger] pixels(sub)[(c, row)] == (0u8, 0u8, 0u8),
            decreases nx - i,
        {
            let ghost before = current;
            let (colour, next) = shade(i, j, current);
            proof {
                lemma_pixel_index(i, y, nx, ny);
                assert(call_ensures(*shade, (i, j, before), (colour, next)));
                done = done.push((colour, next));
            }
            current = next;
            put_pixel(&mut sub, i, y, colour);
            i += 1;
        }
        proof {
            let grown = outcomes.push(done);
            assert forall|r: int, c: int| 0 <= r < grown.len() && 0 <= c < nx implies #[trigger]
                is_shading_step(*shade, ny, band, rng, grown, r, c) by {
                if r < outcomes.len() {
                    assert(is_shading_step(*shade, ny, band, rng, outcomes, r, c));
                    assert(grown[r] == outcomes[r]);
                    if r > 0 {
                        assert(grown[r - 1] == outcomes[r - 1]);
                    }
                } else {
                    assert(grown[r] == done);
                    if r > 0 {
                        assert(grown[r - 1] == outcomes[r - 1]);
                    }
                    assert(generator_before(grown, rng, r, 0) == row_start);
                    assert(call_ensures(
                        *shade,
                        (
                            c as u32,
                            j,
                            if c > 0 {
                                done[c - 1].1
                            } else {
                                row_start
                            },
                        ),
                        done[c],
                    ));
                }
            }
            assert(shows(sub, nx, 0, grown)) by {
                assert forall|c: u32, row: u32| c < nx && 0 <= row < 0 + grown.len() implies #[trigger]
                    pixels(sub)[(c, row)] == grown[row - 0][c as int].0 by {
                    if row < outcomes.len() {
                        assert(grown[row as int] == outcomes[row as int]);
                    } else {
                        assert(grown[row as int] == done);
                    }
                }
            }
            if nx > 0 {
                assert(grown[grown.len() - 1] == done);
                assert(done.last() == done[nx - 1]);
            }
            outcomes = grown;
        }
        inverse_j += 1;
    }
    proof {
        assert(is_shading(*shade, nx, ny, band, rng, outcomes));
    }
    sub
}

/// Inside an image that is small enough, the place of every pixel can be
/// found in 32 bits.
proof fn lemma_pixel_index(x: u32, y: u32, nx: u32, ny: u32)
    requires
        x < nx,
        y < ny,
        nx * ny <= u32::MAX,
    ensures
        y * nx + x <= u32::MAX,
{
    assert(y * nx + x < nx * ny) by (nonlinear_arith)
        requires
            x < nx,
            y < ny,
    ;
}

/// Copies the rows of one band from the image that the band was rendered
/// into, where they start at row 0, to their place in the whole image. All
/// other rows of the whole image stay as they are.
pub fn merge_band(img: &mut Canvas, sub: &Canvas, band: Band)
    requires
        canvas_wf(*old(img)),
        canvas_wf(*sub),
        dimensions(*sub) == dimensions(*old(img)),
        band.start <= band.top <= dimensions(*old(img)).1,
    ensures
        dimensions(*final(img)) == dimensions(*old(img)),
        canvas_wf(*final(img)),
        forall|i: u32, row: u32|
            i < dimensions(*old(img)).0 && row < dimensions(*old(img)).1 ==> #[trigger] pixels(
                *final(img),
            )[(i, row)] == (if band.start <= row < band.top {
                pixels(*sub)[(i, (row - band.start) as u32)]
            } else {
                pixels(*old(img))[(i, row)]
            }),
{
    let (nx, ny) = canvas_dimensions(img);
    let mut i: u32 = 0;
    while i < nx
        invariant
            i <= nx,
            band.start <= band.top <= ny,
            dimensions(*img) == (nx, ny),
            dimensions(*sub) == (nx, ny),
            dimensions(*old(img)) == (nx, ny),
            canvas_wf(*img),
            canvas_wf(*sub),
            forall|c: u32, row: u32|
                c < nx && row < ny ==> #[trigger] pixels(*img)[(c, row)] == (if c < i && band.start
                    <= row < band.top {
                    pixels(*sub)[(c, (row - band.start) as u32)]
                } else {
                    pixels(*old(img))[(c, row)]
                }),
        decreases nx - i,
    {
        let mut inverse_j: u32 = band.start;
        while inverse_j < band.top
            invariant
                i < nx,
                band.start <= inverse_j <= band.top <= ny,
                dimensions(*img) == (nx, ny),
                dimensions(*sub) == (nx, ny),
                dimensions(*old(img)) == (nx, ny),
                canvas_wf(*img),
                canvas_wf(*sub),
                forall|c: u32, row: u32|
                    c < nx && row < ny ==> #[trigger] pixels(*img)[(c, row)] == (if (c < i || (c
                        == i && row < inverse_j)) && band.start <= row < band.top {
                        pixels(*sub)[(c, (row - band.start) as u32)]
                    } else {
                        pixels(*old(img))[(c, row)]
                    }),
            decreases band.top - inverse_j,
        {
            proof {
                lemma_pixel_index(i, inverse_j, nx, ny);
                lemma_pixel_index(i, (inverse_j - band.start) as u32, nx, ny);
            }
            let pixel = get_pixel(sub, i, inverse_j - band.start);
            put_pixel(img, i, inverse_j, pixel);
            inverse_j += 1;
        }
        i += 1;
    }
}

/// The seed of worker `cpu`: the seed of the rendering plus the worker's
/// number, from 0 again beyond the largest seed.
pub open spec fn spec_worker_seed(seed: usize, cpu: usize) -> usize {
    if seed + cpu <= usize::MAX {
        (seed + cpu) as usize
    } else {
        (seed + cpu - usize::MAX - 1) as usize
    }
}

/// The seed from which worker `cpu` starts its generator.
pub fn worker_seed(seed: usize, cpu: usize) -> (s: usize)
    ensures
        s == spec_worker_seed(seed, cpu),
{
    if cpu <= usize::MAX - seed {
        seed + cpu
    } else {
        cpu - (usize::MAX - seed) - 1
    }
}

/// The band of worker `cpu` of `num`.
pub open spec fn band_of(cpu: int, num: int, ny: int) -> Band {
    Band { start: spec_band(cpu, num, ny).0 as u32, top: spec_band(cpu, num, ny).1 as u32 }
}

/// Whether an image is a rendering with `num` workers from `seed`: whether it
/// shows, in the rows of every worker's band, a shading of that band that
/// started from a generator fresh from that worker's seed.
pub open spec fn rendered<F>(img: Canvas, nx: u32, ny: u32, num: usize, seed: usize, shade: F) -> bool where
    F: Fn(u32, u32, ThreadSeedableRng) -> Shaded,
 {
    &&& dimensions(img) == (nx, ny)
    &&& forall|cpu: int|
        0 <= cpu < num ==> #[trigger] band_rendered(
            img,
            nx,
            ny,
            band_of(cpu, num as int, ny as int),
            band_of(cpu, num as int, ny as int).start,
            ThreadSeedableRng::fresh(spec_worker_seed(seed, cpu as usize)),
            shade,
        )
}

/// Renders the whole image with `num` workers' bands, one band after the
/// other on this thread, and merges them. Every worker shades its band with
/// a generator of its own, fresh from its seed.
pub fn render<F>(nx: u32, ny: u32, num: usize, seed: usize, shade: &F) -> (img: Canvas) where
    F: Fn(u32, u32, ThreadSeedableRng) -> Shaded,

    requires
        num > 0,
        3 * nx * ny <= usize::MAX,
        nx * ny <= u32::MAX,
        forall|i: u32, j: u32, g: ThreadSeedableRng| call_requires(*shade, (i, j, g)),
    ensures
        canvas_wf(img),
        rendered(img, nx, ny, num, seed, *shade),
{
    let mut img = new_canvas(nx, ny);
    let mut cpu: usize = 0;
    while cpu < num
        invariant
            cpu <= num,
            num > 0,
            3 * nx * ny <= usize::MAX,
            nx * ny <= u32::MAX,
            dimensions(img) == (nx, ny),
            canvas_wf(img),
            forall|i: u32, j: u32, g: ThreadSeedableRng| call_requires(*shade, (i, j, g)),
            forall|c: int|
                0 <= c < cpu ==> #[trigger] band_rendered(
                    img,
                    nx,
                    ny,
                    band_of(c, num as int, ny as int),
                    band_of(c, num as int, ny as int).start,
                    ThreadSeedableRng::fresh(spec_worker_seed(seed, c as usize)),
                    *shade,
                ),
        decreases num - cpu,
    {
        let b = band(cpu, num, ny);
        let rng = thread_seedable_rng(worker_seed(seed, cpu));
        let sub = render_band(nx, ny, b, rng, shade);
        let ghost before = img;
        merge_band(&mut img, &sub, b);
        proof {
            assert(b == band_of(cpu as int, num as int, ny as int));
            assert forall|c: int| 0 <= c < cpu + 1 implies #[trigger] band_rendered(
                img,
                nx,
                ny,
                band_of(c, num as int, ny as int),
                band_of(c, num as int, ny as int).start,
                ThreadSeedableRng::fresh(spec_worker_seed(seed, c as usize)),
                *shade,
            ) by {
                let of_c = band_of(c, num as int, ny as int);
                let start = ThreadSeedableRng::fresh(spec_worker_seed(seed, c as usize));
                lemma_band_bounds(c, num as int, ny as int);
                if c < cpu {
                    lemma_bands_ordered(c, cpu as int, num as int, ny as int);
                    assert(band_rendered(before, nx, ny, of_c, of_c.start, start, *shade));
                    let outcomes = choose|outcomes: Seq<Seq<Shaded>>| #[trigger]
                        is_shading(*shade, nx, ny, of_c, start, outcomes) && shows(
                            before,
                            nx,
                            of_c.start,
                            outcomes,
                        );
                    assert(shows(img, nx, of_c.start, outcomes)) by {
                        assert forall|i: u32, y: u32|
                            i < nx && of_c.start <= y < of_c.start + outcomes.len() implies #[trigger]
                            pixels(img)[(i, y)] == outcomes[y - of_c.start][i as int].0 by {
                            assert(pixels(img)[(i, y)] == pixels(before)[(i, y)]);
                        }
                    }
                } else {
                    let outcomes = choose|outcomes: Seq<Seq<Shaded>>| #[trigger]
                        is_shading(*shade, nx, ny, b, rng, outcomes) && shows(sub, nx, 0, outcomes);
                    assert(shows(img, nx, b.start, outcomes)) by {
                        assert forall|i: u32, y: u32|
                            i < nx && b.start <= y < b.start + outcomes.len() implies #[trigger]
                            pixels(img)[(i, y)] == outcomes[y - b.start][i as int].0 by {
                            assert(pixels(img)[(i, y)] == pixels(sub)[(i, (y - b.start) as u32)]);
                        }
                    }
                }
            }
        }
        cpu += 1;
    }
    img
}

/// The seed settles the image: where the colour of a pixel is settled by its
/// place and by the generator that its shading is handed, two renderings with
/// the same number of workers from the same seed agree in every pixel.
pub proof fn lemma_seed_settles_the_image<F>(
    a: Canvas,
    b: Canvas,
    nx: u32,
    ny: u32,
    num: usize,
    seed: usize,
    shade: F,
) where F: Fn(u32, u32, ThreadSeedableRng) -> Shaded
    requires
        num > 0,
        settled(shade),
        rendered(a, nx, ny, num, seed, shade),
        rendered(b, nx, ny, num, seed, shade),
    ensures
        forall|i: u32, row: u32|
            i < nx && row < ny ==> #[trigger] pixels(a)[(i, row)] == pixels(b)[(i, row)],
{
    assert forall|i: u32, row: u32| i < nx && row < ny implies #[trigger] pixels(a)[(i, row)]
        == pixels(b)[(i, row)] by {
        lemma_bands_cover(num as int, ny as int, row as int);
        let cpu = choose|cpu: int|
            0 <= cpu < num && #[trigger] spec_band(cpu, num as int, ny as int).0 <= row < spec_band(
                cpu,
                num as int,
                ny as int,
            ).1;
        lemma_band_bounds(cpu, num as int, ny as int);
        let of_cpu = band_of(cpu, num as int, ny as int);
        let start = ThreadSeedableRng::fresh(spec_worker_seed(seed, cpu as usize));
        assert(band_rendered(a, nx, ny, of_cpu, of_cpu.start, start, shade));
        assert(band_rendered(b, nx, ny, of_cpu, of_cpu.start, start, shade));
        let in_a = choose|outcomes: Seq<Seq<Shaded>>| #[trigger]
            is_shading(shade, nx, ny, of_cpu, start, outcomes) && shows(a, nx, of_cpu.start, outcomes);
        let in_b = choose|outcomes: Seq<Seq<Shaded>>| #[trigger]
            is_shading(shade, nx, ny, of_cpu, start, outcomes) && shows(b, nx, of_cpu.start, outcomes);
        lemma_shading_settled(shade, nx, ny, of_cpu, start, in_a, in_b, row - of_cpu.start, i as int);
    }
}

/// The image as bytes: three for each pixel, red, green and blue, the pixels
/// of a row side by side and the rows one after the other from the top.
pub fn into_bytes(canvas: Canvas) -> (raw: Vec<u8>)
    ensures
        raw@.len() == 3 * dimensions(canvas).0 * dimensions(canvas).1,
        forall|x: u32, y: u32|
            x < dimensions(canvas).0 && y < dimensions(canvas).1 ==> {
                let at = 3 * (y * dimensions(canvas).0 + x);
                #[trigger] pixels(canvas)[(x, y)] == (raw@[at], raw@[at + 1], raw@[at + 2])
            },
{
    canvas_into_raw(canvas)
}

/// Whether `sums` are the running sums of `samples`: the sum of no sample is
/// black, and each further sum is what `sum_of` makes of the sum before and the
/// next sample.
pub open spec fn is_accumulation<A>(sum_of: A, samples: Seq<Vector3>, sums: Seq<Vector3>) -> bool where
    A: Fn(Vector3, Vector3) -> Vector3,
 {
    &&& sums.len() == samples.len() + 1
    &&& sums[0] == Vector3::spec_zero()
    &&& forall|k: int|
        0 <= k < samples.len() ==> call_ensures(sum_of, (sums[k], samples[k]), #[trigger] sums[k + 1])
}

/// The colour of one pixel from `ns` samples.
///
/// `sample` is asked `ns` times for the radiance along one more ray through
/// the pixel; `sum_of` sums the samples up, starting from black; `finish` makes
/// the pixel's three bytes of the sum and the number of samples.
pub fn sample_pixel<S, A, F>(ns: u32, sample: &S, sum_of: &A, finish: &F) -> (pixel: (u8, u8, u8)) where
    S: Fn() -> Vector3,
    A: Fn(Vector3, Vector3) -> Vector3,
    F: Fn(Vector3, u32) -> (u8, u8, u8),

    requires
        call_requires(*sample, ()),
        forall|a: Vector3, b: Vector3| call_requires(*sum_of, (a, b)),
        forall|sum: Vector3, n: u32| call_requires(*finish, (sum, n)),
    ensures
        exists|samples: Seq<Vector3>, sums: Seq<Vector3>|
            {
                &&& samples.len() == ns
                &&& forall|k: int| 0 <= k < ns ==> call_ensures(*sample, (), #[trigger] samples[k])
                &&& #[trigger] is_accumulation(*sum_of, samples, sums)
                &&& call_ensures(*finish, (sums[ns as int], ns), pixel)
            },
{
    let mut output_colour = Vector3::zero();
    let ghost mut samples: Seq<Vector3> = Seq::empty();
    let ghost mut sums: Seq<Vector3> = seq![Vector3::spec_zero()];
    let mut k: u32 = 0;
    while k < ns
        invariant
            k <= ns,
            samples.len() == k,
            call_requires(*sample, ()),
            forall|a: Vector3, b: Vector3| call_requires(*sum_of, (a, b)),
            forall|j: int| 0 <= j < k ==> call_ensures(*sample, (), #[trigger] samples[j]),
            is_accumulation(*sum_of, samples, sums),
            output_colour == sums[k as int],
        decreases ns - k,
    {
        let drawn = sample();
        let sum = sum_of(output_colour, drawn);
        proof {
            let more = samples.push(drawn);
            let grown = sums.push(sum);
            assert forall|j: int| 0 <= j < more.len() implies call_ensures(
                *sum_of,
                (grown[j], more[j]),
                #[trigger] grown[j + 1],
            ) by {
                if j < samples.len() {
                    assert(grown[j + 1] == sums[j + 1]);
                }
            }
            samples = more;
            sums = grown;
        }
        output_colour = sum;
        k += 1;
    }
    finish(output_colour, ns)
}

/// How many times a path may be scattered before it is given up as black.
pub const MAX_DEPTH: u32 = 50;

/// The bit pattern of 0.001, the least ray parameter at which a hit counts:
/// nearer hits are the surface that the ray has just left.
pub const NEAREST_BITS: u32 = 0x3a83_126f;

/// The bit pattern of the largest finite number, the bound on the ray
/// parameter of a hit.
pub const FARTHEST_BITS: u32 = 0x7f7f_ffff;

/// Whether `c` is a radiance that the path integrator may return for a ray
/// that has been scattered `depth` times.
///
/// The world is asked for the nearest hit of the ray beyond the parameter
/// 0.001. Where there is none, the radiance is what `sky` gives for the ray.
/// A hit without a material is black, and so is any hit once the ray has
/// been scattered [`MAX_DEPTH`] times. Otherwise `scatter` is asked for an
/// attenuation, a scattered ray and whether the ray is scattered at all; if
/// it is not, the radiance is black, and if it is, it is what `tint` makes of
/// the attenuation and the radiance of the scattered ray.
pub open spec fn radiance<H, S, K, P>(
    ray: Ray3,
    hitable: H,
    depth: u32,
    scatter: S,
    sky: K,
    tint: P,
    c: Vector3,
) -> bool where
    H: Hitable,
    S: Fn(&H::Material, &Ray3, &HitRecord<H::Material>) -> (Vector3, Ray3, bool),
    K: Fn(&Ray3) -> Vector3,
    P: Fn(Vector3, Vector3) -> Vector3,

    decreases MAX_DEPTH - depth,
{
    exists|rec: Option<HitRecord<H::Material>>|
        {
            &&& #[trigger] answers(
                hitable,
                ray,
                Scalar::with_key(NEAREST_BITS as int),
                Scalar::with_key(FARTHEST_BITS as int),
                rec,
            )
            &&& match rec {
                None => call_ensures(sky, (&ray,), c),
                Some(h) => match h.material {
                    None => c == Vector3::spec_zero(),
                    Some(material) => if depth < MAX_DEPTH {
                        exists|attenuation: Vector3, scattered: Ray3, should_scatter: bool|
                            {
                                &&& #[trigger] call_ensures(
                                    scatter,
                                    (&material, &ray, &h),
                                    (attenuation, scattered, should_scatter),
                                )
                                &&& if should_scatter {
                                    exists|inner: Vector3|
                                        {
                                            &&& #[trigger] call_ensures(
                                                tint,
                                                (attenuation, inner),
                                                c,
                                            )
                                            &&& radiance(
                                                scattered,
                                                hitable,
                                                (depth + 1) as u32,
                                                scatter,
                                                sky,
                                                tint,
                                                inner,
                                            )
                                        }
                                } else {
                                    c == Vector3::spec_zero()
                                }
                            }
                    } else {
                        c == Vector3::spec_zero()
                    },
                },
            }
        }
}

/// The radiance that arrives along a ray which has been scattered `depth`
/// times: see [`radiance`]. The arithmetic is the caller's: `scatter` is the
/// material model, `sky` the background and `tint` the product of an
/// attenuation and a radiance, channel by channel.
pub fn colour<H, S, K, P>(ray: &Ray3, hitable: &H, depth: u32, scatter: &S, sky: &K, tint: &P) -> (c:
    Vector3) where
    H: Hitable,
    S: Fn(&H::Material, &Ray3, &HitRecord<H::Material>) -> (Vector3, Ray3, bool),
    K: Fn(&Ray3) -> Vector3,
    P: Fn(Vector3, Vector3) -> Vector3,

    requires
        forall|m: &H::Material, r: &Ray3, h: &HitRecord<H::Material>|
            call_requires(*scatter, (m, r, h)),
        forall|r: &Ray3| call_requires(*sky, (r,)),
        forall|a: Vector3, b: Vector3| call_requires(*tint, (a, b)),
    ensures
        radiance(*ray, *hitable, depth, *scatter, *sky, *tint, c),
    decreases MAX_DEPTH - depth,
{
    let nearest = Scalar::from_bits(NEAREST_BITS).unwrap();
    let farthest = Scalar::from_bits(FARTHEST_BITS).unwrap();
    proof {
        Scalar::lemma_with_key(nearest);
        Scalar::lemma_with_key(farthest);
    }
    let rec = hitable.hit(ray, nearest, farthest);
    assert(answers(*hitable, *ray, nearest, farthest, rec));
    match &rec {
        None => sky(ray),
        Some(h) => match &h.material {
            None => Vector3::zero(),
            Some(material) => {
                if depth < MAX_DEPTH {
                    let (attenuation, scattered, should_scatter) = scatter(material, ray, h);
                    assert(call_ensures(
                        *scatter,
                        (material, ray, h),
                        (attenuation, scattered, should_scatter),
                    ));
                    if should_scatter {
                        tint(attenuation, colour(&scattered, hitable, depth + 1, scatter, sky, tint))
                    } else {
                        Vector3::zero()
                    }
                } else {
                    Vector3::zero()
                }
            },
        },
    }
}

/// A ray that has been scattered [`MAX_DEPTH`] times is scattered no more:
/// what it hits with a material is black.
pub proof fn lemma_radiance_at_the_cap<H, S, K, P>(
    ray: Ray3,
    hitable: H,
    depth: u32,
    scatter: S,
    sky: K,
    tint: P,
    c: Vector3,
) where
    H: Hitable,
    S: Fn(&H::Material, &Ray3, &HitRecord<H::Material>) -> (Vector3, Ray3, bool),
    K: Fn(&Ray3) -> Vector3,
    P: Fn(Vector3, Vector3) -> Vector3,

    requires
        depth >= MAX_DEPTH,
        radiance(ray, hitable, depth, scatter, sky, tint, c),
    ensures
        c == Vector3::spec_zero() || call_ensures(sky, (&ray,), c),
{
}

} // verus!
