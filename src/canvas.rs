//! A grid of pixels, and its text encoding as a plain portable pixmap.
use crate::color::ColorInt;
use vstd::prelude::*;

verus! {

/// Why a canvas refused an access.
#[derive(Clone, Copy, Debug, PartialEq, Eq, Structural)]
pub enum CanvasError {
    /// The pixel lies outside the canvas.
    IndexOutOfRange,
}

/// A `width x height` grid of pixels, stored row after row: pixel `(x, y)`
/// sits at `x + y * width`.
#[derive(Clone, Debug)]
pub struct Canvas<P> {
    width: u32,
    height: u32,
    pixels: Vec<P>,
}

impl<P> Canvas<P> {
    /// Storage holds exactly one pixel per cell.
    pub closed spec fn wf(&self) -> bool {
        self.pixels@.len() == self.width as int * self.height as int
    }

    /// Number of columns.
    pub closed spec fn columns(&self) -> nat {
        self.width as nat
    }

    /// Number of rows.
    pub closed spec fn lines(&self) -> nat {
        self.height as nat
    }

    /// The pixels, row after row.
    pub closed spec fn contents(&self) -> Seq<P> {
        self.pixels@
    }

    /// The pixel in column `x` of row `y`.
    pub open spec fn pixel(&self, x: int, y: int) -> P {
        self.contents()[x + y * self.columns()]
    }

    /// A canvas of `width x height` pixels, all `blank`.
    pub fn new(width: u32, height: u32, blank: P) -> (c: Canvas<P>)
        where
            P: Copy,
        requires
            width as int * height as int <= usize::MAX,
        ensures
            c.wf(),
            c.columns() == width,
            c.lines() == height,
            c.contents() == Seq::new((width * height) as nat, |k: int| blank),
    {
        let n = width as usize * height as usize;
        let mut pixels: Vec<P> = Vec::new();
        let mut k: usize = 0;
        while k < n
            invariant
                k <= n,
                pixels@ == Seq::new(k as nat, |k: int| blank),
            decreases n - k,
        {
            pixels.push(blank);
            k += 1;
            proof {
                assert(pixels@ =~= Seq::new(k as nat, |k: int| blank));
            }
        }
        Canvas { width, height, pixels }
    }

    pub fn width(&self) -> (r: u32)
        ensures
            r == self.columns(),
    {
        self.width
    }

    pub fn height(&self) -> (r: u32)
        ensures
            r == self.lines(),
    {
        self.height
    }

    /// Whether `(x, y)` names a pixel of the canvas.
    pub open spec fn inside(&self, x: int, y: int) -> bool {
        0 <= x < self.columns() && 0 <= y < self.lines()
    }

    /// Overwrites the pixel at column `x` of row `y`; outside the canvas
    /// nothing changes and `IndexOutOfRange` is returned.
    pub fn write_pixel(&mut self, x: usize, y: usize, color: P) -> (r: Result<(), CanvasError>)
        requires
            old(self).wf(),
        ensures
            final(self).wf(),
            final(self).columns() == old(self).columns(),
            final(self).lines() == old(self).lines(),
            match r {
                Ok(_) => old(self).inside(x as int, y as int) && final(self).contents()
                    == old(self).contents().update(x + y * old(self).columns(), color),
                Err(e) => e == CanvasError::IndexOutOfRange && !old(self).inside(x as int, y as int)
                    && final(self).contents() == old(self).contents(),
            },
    {
        let _ = self.pixels.len();
        if x < self.width as usize && y < self.height as usize {
            proof {
                assert(x + y * self.width <= (self.height - 1) * self.width + self.width - 1)
                    by (nonlinear_arith)
                    requires
                        x < self.width,
                        y < self.height,
                ;
                assert((self.height - 1) * self.width + self.width == self.width * self.height)
                    by (nonlinear_arith)
                    requires
                        self.height >= 1,
                ;
            }
            let k = x + y * self.width as usize;
            self.pixels.set(k, color);
            Ok(())
        } else {
            Err(CanvasError::IndexOutOfRange)
        }
    }

    /// A canvas of the same size whose every pixel is `f` of the pixel here.
    pub fn map<Q, F: Fn(P) -> Q>(&self, f: F) -> (c: Canvas<Q>)
        where
            P: Copy,
        requires
            self.wf(),
            forall|k: int| 0 <= k < self.contents().len() ==> f.requires((self.contents()[k],)),
        ensures
            c.wf(),
            c.columns() == self.columns(),
            c.lines() == self.lines(),
            forall|k: int|
                0 <= k < self.contents().len() ==> f.ensures(
                    (self.contents()[k],),
                    #[trigger] c.contents()[k],
                ),
    {
        let mut pixels: Vec<Q> = Vec::new();
        let mut k: usize = 0;
        while k < self.pixels.len()
            invariant
                k <= self.pixels@.len(),
                pixels@.len() == k,
                self.pixels@ == self.contents(),
                forall|k: int| 0 <= k < self.contents().len() ==> f.requires((self.contents()[k],)),
                forall|j: int| 0 <= j < k ==> f.ensures((self.contents()[j],), #[trigger] pixels@[j]),
            decreases self.pixels@.len() - k,
        {
            let q = f(self.pixels[k]);
            pixels.push(q);
            k += 1;
        }
        Canvas { width: self.width, height: self.height, pixels }
    }

    /// The pixel at column `x` of row `y`, or `IndexOutOfRange`.
    pub fn pixel_at(&self, x: usize, y: usize) -> (r: Result<P, CanvasError>)
        where
            P: Copy,
        requires
            self.wf(),
        ensures
            match r {
                Ok(p) => self.inside(x as int, y as int) && p == self.pixel(x as int, y as int),
                Err(e) => e == CanvasError::IndexOutOfRange && !self.inside(x as int, y as int),
            },
    {
        let _ = self.pixels.len();
        if x < self.width as usize && y < self.height as usize {
            proof {
                assert(x + y * self.width <= (self.height - 1) * self.width + self.width - 1)
                    by (nonlinear_arith)
                    requires
                        x < self.width,
                        y < self.height,
                ;
                assert((self.height - 1) * self.width + self.width == self.width * self.height)
                    by (nonlinear_arith)
                    requires
                        self.height >= 1,
                ;
            }
            Ok(self.pixels[x + y * self.width as usize])
        } else {
            Err(CanvasError::IndexOutOfRange)
        }
    }
}

/// The decimal digits of `n` in ASCII, without leading zeros.
pub open spec fn decimal(n: nat) -> Seq<u8>
    decreases n,
{
    if n < 10 {
        seq![(n + 48) as u8]
    } else {
        decimal(n / 10) + seq![((n % 10) + 48) as u8]
    }
}

/// A pixel as its three channels in decimal, separated by spaces.
pub open spec fn pixel_text(c: ColorInt) -> Seq<u8> {
    decimal(c.r as nat) + seq![32u8] + decimal(c.g as nat) + seq![32u8] + decimal(c.b as nat)
}

/// The `n` pixels from `start` on, separated by spaces.
pub open spec fn row_text(pixels: Seq<ColorInt>, start: int, n: nat) -> Seq<u8>
    decreases n,
{
    if n == 0 {
        seq![]
    } else if n == 1 {
        pixel_text(pixels[start])
    } else {
        row_text(pixels, start, (n - 1) as nat) + seq![32u8] + pixel_text(pixels[start + n - 1])
    }
}

/// The first `rows` rows of `width` pixels, separated by newlines.
pub open spec fn rows_text(pixels: Seq<ColorInt>, width: nat, rows: nat) -> Seq<u8>
    decreases rows,
{
    if rows == 0 {
        seq![]
    } else if rows == 1 {
        row_text(pixels, 0, width)
    } else {
        rows_text(pixels, width, (rows - 1) as nat) + seq![10u8] + row_text(
            pixels,
            (rows - 1) * width,
            width,
        )
    }
}

/// The pixmap header: the plain-format magic number, the width and height,
/// and the maximum channel value 255.
pub open spec fn ppm_header(width: nat, height: nat) -> Seq<u8> {
    seq![80u8, 51u8, 10u8] + decimal(width) + seq![32u8] + decimal(height) + seq![
        10u8,
        50u8,
        53u8,
        53u8,
        10u8,
    ]
}

/// The whole plain pixmap: the header, the rows, and a final newline.
pub open spec fn ppm_text(width: nat, height: nat, pixels: Seq<ColorInt>) -> Seq<u8> {
    ppm_header(width, height) + (if width == 0 || height == 0 {
        seq![]
    } else {
        rows_text(pixels, width, height)
    }) + seq![10u8]
}

/// Appends the decimal digits of `n`.
fn push_decimal(out: &mut Vec<u8>, n: u32)
    ensures
        final(out)@ == old(out)@ + decimal(n as nat),
    decreases n,
{
    if n >= 10 {
        push_decimal(out, n / 10);
    }
    out.push((n % 10) as u8 + 48);
    proof {
        if n >= 10 {
            assert(final(out)@ =~= old(out)@ + decimal(n as nat));
        } else {
            assert(final(out)@ =~= old(out)@ + decimal(n as nat));
        }
    }
}

/// Appends a pixel's three channels in decimal, separated by spaces.
fn push_pixel(out: &mut Vec<u8>, c: ColorInt)
    ensures
        final(out)@ == old(out)@ + pixel_text(c),
{
    push_decimal(out, c.r);
    out.push(32);
    push_decimal(out, c.g);
    out.push(32);
    push_decimal(out, c.b);
    proof {
        assert(final(out)@ =~= old(out)@ + pixel_text(c));
    }
}

impl Canvas<ColorInt> {
    /// The canvas as a plain-text portable pixmap: the header, then one
    /// line per row with each pixel's channels in decimal.
    pub fn to_ppm(&self) -> (r: Vec<u8>)
        requires
            self.wf(),
        ensures
            r@ == ppm_text(self.columns(), self.lines(), self.contents()),
    {
        let mut out: Vec<u8> = Vec::new();
        out.push(80);
        out.push(51);
        out.push(10);
        push_decimal(&mut out, self.width);
        out.push(32);
        push_decimal(&mut out, self.height);
        out.push(10);
        out.push(50);
        out.push(53);
        out.push(53);
        out.push(10);
        let ghost header = out@;
        proof {
            assert(header =~= ppm_header(self.columns(), self.lines()));
        }
        let w = self.width as usize;
        let h = self.height as usize;
        let _ = self.pixels.len();
        if w > 0 && h > 0 {
            let mut y: usize = 0;
            while y < h
                invariant
                    y <= h,
                    w == self.columns(),
                    h == self.lines(),
                    w > 0,
                    self.wf(),
                    self.pixels@.len() <= usize::MAX,
                    out@ == header + rows_text(self.contents(), w as nat, y as nat),
                decreases h - y,
            {
                if y > 0 {
                    out.push(10);
                }
                let ghost base = out@;
                proof {
                    assert(y * w + w <= w * h) by (nonlinear_arith)
                        requires
                            y < h,
                    ;
                }
                let mut x: usize = 0;
                while x < w
                    invariant
                        x <= w,
                        y < h,
                        w == self.columns(),
                        h == self.lines(),
                        w > 0,
                        self.wf(),
                        y * w + w <= w * h,
                        self.pixels@.len() <= usize::MAX,
                        out@ == base + row_text(self.contents(), (y * w) as int, x as nat),
                    decreases w - x,
                {
                    if x > 0 {
                        out.push(32);
                    }
                    push_pixel(&mut out, self.pixels[y * w + x]);
                    proof {
                        assert(out@ =~= base + row_text(self.contents(), (y * w) as int, (x + 1) as nat));
                    }
                    x += 1;
                }
                proof {
                    assert(out@ =~= header + rows_text(self.contents(), w as nat, (y + 1) as nat));
                }
                y += 1;
            }
        }
        out.push(10);
        proof {
            assert(out@ =~= ppm_text(self.columns(), self.lines(), self.contents()));
        }
        out
    }
}

} // verus!
