//! The pixel frame the hologram avatar is painted into.
use vstd::prelude::*;

verus! {

/// A colour with opacity.
#[derive(Clone, Copy, Debug, PartialEq, Eq, Structural)]
pub struct Rgba {
    pub r: u8,
    pub g: u8,
    pub b: u8,
    pub a: u8,
}

impl Rgba {
    /// An opaque colour.
    pub fn rgb(r: u8, g: u8, b: u8) -> (c: Self)
        ensures
            c == (Rgba { r, g, b, a: 255 }),
    {
        Rgba { r, g, b, a: 255 }
    }

    /// Fully transparent black.
    pub fn transparent() -> (c: Self)
        ensures
            c == (Rgba { r: 0, g: 0, b: 0, a: 0 }),
    {
        Rgba { r: 0, g: 0, b: 0, a: 0 }
    }
}

/// A `width` by `height` grid of pixels, row by row.
#[derive(Clone)]
pub struct AvatarFrame {
    width: usize,
    height: usize,
    pixels: Vec<Rgba>,
}

impl AvatarFrame {
    pub closed spec fn spec_width(&self) -> nat {
        self.width as nat
    }

    pub closed spec fn spec_height(&self) -> nat {
        self.height as nat
    }

    /// The pixels, row by row.
    pub closed spec fn spec_pixels(&self) -> Seq<Rgba> {
        self.pixels@
    }

    /// The frame holds one pixel per cell.
    pub open spec fn wf(&self) -> bool {
        self.spec_pixels().len() == self.spec_width() * self.spec_height()
    }

    /// The pixel at column `x`, row `y`.
    pub open spec fn pixel(&self, x: int, y: int) -> Rgba {
        self.spec_pixels()[y * self.spec_width() + x]
    }

    /// A transparent frame.
    pub fn new(width: usize, height: usize) -> (f: Self)
        requires
            width * height <= usize::MAX,
        ensures
            f.wf(),
            f.spec_width() == width,
            f.spec_height() == height,
            forall|i: int| 0 <= i < f.spec_pixels().len() ==> f.spec_pixels()[i] == Rgba::transparent_spec(),
    {
        let n = width * height;
        let mut pixels: Vec<Rgba> = Vec::new();
        while pixels.len() < n
            invariant
                pixels.len() <= n,
                forall|i: int| 0 <= i < pixels.len() ==> pixels@[i] == Rgba::transparent_spec(),
            decreases n - pixels.len(),
        {
            pixels.push(Rgba::transparent());
        }
        AvatarFrame { width, height, pixels }
    }

    pub fn width(&self) -> (w: usize)
        ensures
            w == self.spec_width(),
    {
        self.width
    }

    pub fn height(&self) -> (h: usize)
        ensures
            h == self.spec_height(),
    {
        self.height
    }

    /// The pixel at column `x`, row `y`.
    pub fn get(&self, x: usize, y: usize) -> (c: Rgba)
        requires
            self.wf(),
            x < self.spec_width(),
            y < self.spec_height(),
        ensures
            c == self.pixel(x as int, y as int),
    {
        proof {
            lemma_cell_index(x as int, y as int, self.width as int, self.height as int);
        }
        let n = self.pixels.len();
        assert(y * self.width + x < n);
        self.pixels[y * self.width + x]
    }

    /// Replaces the pixel at column `x`, row `y`.
    pub fn set(&mut self, x: usize, y: usize, c: Rgba)
        requires
            old(self).wf(),
            x < old(self).spec_width(),
            y < old(self).spec_height(),
        ensures
            final(self).wf(),
            final(self).spec_width() == old(self).spec_width(),
            final(self).spec_height() == old(self).spec_height(),
            final(self).spec_pixels() == old(self).spec_pixels().update(
                y * old(self).spec_width() + x,
                c,
            ),
    {
        proof {
            lemma_cell_index(x as int, y as int, self.width as int, self.height as int);
        }
        let n = self.pixels.len();
        assert(y * self.width + x < n);
        let i = y * self.width + x;
        self.pixels.set(i, c);
    }
}

impl Rgba {
    pub open spec fn transparent_spec() -> Rgba {
        Rgba { r: 0, g: 0, b: 0, a: 0 }
    }
}

proof fn lemma_cell_index(x: int, y: int, w: int, h: int)
    requires
        0 <= x < w,
        0 <= y < h,
    ensures
        0 <= y * w + x < w * h,
{
    assert(y * w + x < w * h) by (nonlinear_arith)
        requires
            0 <= x < w,
            0 <= y < h,
    ;
    assert(0 <= y * w) by (nonlinear_arith)
        requires
            0 <= y,
            0 <= w,
    ;
}

/// Paints and post-processes the hologram avatar.
pub struct AvatarRenderer;

/// `v` kept within `[lo, hi]` (`v.max(lo).min(hi)`).
pub open spec fn clamp(v: int, lo: int, hi: int) -> int {
    if v < lo {
        lo
    } else if v > hi {
        hi
    } else {
        v
    }
}

/// The sum of one channel (0 red, 1 green, 2 blue) of a pixel.
pub open spec fn channel(c: Rgba, ch: int) -> nat {
    if ch == 0 {
        c.r as nat
    } else if ch == 1 {
        c.g as nat
    } else {
        c.b as nat
    }
}

/// The sum of one channel over the three by three pixels around `(x, y)`.
pub open spec fn box_sum(f: AvatarFrame, x: int, y: int, ch: int) -> nat {
    channel(f.pixel(x - 1, y - 1), ch) + channel(f.pixel(x, y - 1), ch) + channel(f.pixel(x + 1, y - 1), ch)
        + channel(f.pixel(x - 1, y), ch) + channel(f.pixel(x, y), ch) + channel(f.pixel(x + 1, y), ch)
        + channel(f.pixel(x - 1, y + 1), ch) + channel(f.pixel(x, y + 1), ch) + channel(f.pixel(x + 1, y + 1), ch)
}

impl AvatarRenderer {
    /// The frame painted for a terminal area of `cols` by `rows` cells: its width (the
    /// columns kept within 24..=128), its height (two pixel rows per cell row, the rows kept
    /// within 10..=42), and whether the detail pass runs twice (on areas under 72 columns or
    /// 28 rows).
    pub fn frame_layout(cols: u16, rows: u16) -> (r: (usize, usize, bool))
        ensures
            r.0 == clamp(cols as int, 24, 128),
            r.1 == 2 * clamp(rows as int, 10, 42),
            r.2 == (clamp(cols as int, 24, 128) < 72 || clamp(rows as int, 10, 42) < 28),
    {
        let c: u16 = if cols < 24 {
            24
        } else if cols > 128 {
            128
        } else {
            cols
        };
        let rr: u16 = if rows < 10 {
            10
        } else if rows > 42 {
            42
        } else {
            rows
        };
        (c as usize, (rr as usize) * 2, c < 72 || rr < 28)
    }

    /// The frame as half-block cells: each cell row pairs two pixel rows, the upper as the
    /// foreground colour and the lower as the background (the last row pairs with itself
    /// when the height is odd).
    pub fn halfblock_cells(frame: &AvatarFrame) -> (out: Vec<Vec<(Rgba, Rgba)>>)
        requires
            frame.wf(),
        ensures
            out.len() == (frame.spec_height() + 1) / 2,
            forall|j: int| 0 <= j < out.len() ==> (#[trigger] out@[j]).len() == frame.spec_width(),
            forall|j: int, x: int|
                0 <= j < out.len() && 0 <= x < frame.spec_width() ==> (#[trigger] out@[j]@[x]) == (
                frame.pixel(x, 2 * j),
                frame.pixel(x, if 2 * j + 1 < frame.spec_height() {
                    2 * j + 1
                } else {
                    frame.spec_height() - 1
                }),
            ),
    {
        let w = frame.width();
        let h = frame.height();
        let n = h / 2 + h % 2;
        let mut out: Vec<Vec<(Rgba, Rgba)>> = Vec::new();
        let mut j: usize = 0;
        while j < n
            invariant
                frame.wf(),
                w == frame.spec_width(),
                h == frame.spec_height(),
                n == (h + 1) / 2,
                j <= n,
                out.len() == j,
                forall|k: int| 0 <= k < out.len() ==> (#[trigger] out@[k]).len() == w,
                forall|k: int, x: int|
                    0 <= k < out.len() && 0 <= x < w ==> (#[trigger] out@[k]@[x]) == (
                    frame.pixel(x, 2 * k),
                    frame.pixel(x, if 2 * k + 1 < h {
                        2 * k + 1
                    } else {
                        h - 1
                    }),
                ),
            decreases n - j,
        {
            let y = j * 2;
            let below = if y + 1 < h {
                y + 1
            } else {
                h - 1
            };
            let mut row: Vec<(Rgba, Rgba)> = Vec::new();
            let mut x: usize = 0;
            while x < w
                invariant
                    frame.wf(),
                    w == frame.spec_width(),
                    h == frame.spec_height(),
                    y < h,
                    below < h,
                    below == if y + 1 < h {
                        y + 1
                    } else {
                        h - 1
                    },
                    x <= w,
                    row.len() == x,
                    forall|i: int| 0 <= i < x ==> (#[trigger] row@[i]) == (
                        frame.pixel(i, y as int),
                        frame.pixel(i, below as int),
                    ),
                decreases w - x,
            {
                let top = frame.get(x, y);
                let bottom = frame.get(x, below);
                row.push((top, bottom));
                x = x + 1;
            }
            out.push(row);
            j = j + 1;
        }
        out
    }

    /// For the detail pass: the red, green and blue sums over the three by three pixels
    /// around each pixel off the border, row by row (`out[y - 1][x - 1]` for the pixel at
    /// `(x, y)`); nothing for frames under three pixels wide or high.
    pub fn detail_sums(frame: &AvatarFrame) -> (out: Vec<Vec<(u32, u32, u32)>>)
        requires
            frame.wf(),
        ensures
            frame.spec_width() < 3 || frame.spec_height() < 3 ==> out.len() == 0,
            frame.spec_width() >= 3 && frame.spec_height() >= 3 ==> out.len() == frame.spec_height() - 2,
            forall|j: int| 0 <= j < out.len() ==> (#[trigger] out@[j]).len() == frame.spec_width() - 2,
            forall|j: int, i: int|
                0 <= j < out.len() && 0 <= i < frame.spec_width() - 2 ==> {
                    let s = #[trigger] out@[j]@[i];
                    &&& s.0 == box_sum(*frame, i + 1, j + 1, 0)
                    &&& s.1 == box_sum(*frame, i + 1, j + 1, 1)
                    &&& s.2 == box_sum(*frame, i + 1, j + 1, 2)
                },
    {
        let w = frame.width();
        let h = frame.height();
        let mut out: Vec<Vec<(u32, u32, u32)>> = Vec::new();
        if w < 3 || h < 3 {
            return out;
        }
        let mut y: usize = 1;
        while y < h - 1
            invariant
                frame.wf(),
                w == frame.spec_width(),
                h == frame.spec_height(),
                w >= 3,
                h >= 3,
                1 <= y <= h - 1,
                out.len() == y - 1,
                forall|j: int| 0 <= j < out.len() ==> (#[trigger] out@[j]).len() == w - 2,
                forall|j: int, i: int|
                    0 <= j < out.len() && 0 <= i < w - 2 ==> {
                        let s = #[trigger] out@[j]@[i];
                        &&& s.0 == box_sum(*frame, i + 1, j + 1, 0)
                        &&& s.1 == box_sum(*frame, i + 1, j + 1, 1)
                        &&& s.2 == box_sum(*frame, i + 1, j + 1, 2)
                    },
            decreases h - 1 - y,
        {
            let mut row: Vec<(u32, u32, u32)> = Vec::new();
            let mut x: usize = 1;
            while x < w - 1
                invariant
                    frame.wf(),
                    w == frame.spec_width(),
                    h == frame.spec_height(),
                    w >= 3,
                    1 <= y < h - 1,
                    1 <= x <= w - 1,
                    row.len() == x - 1,
                    forall|i: int|
                        0 <= i < row.len() ==> {
                            let s = #[trigger] row@[i];
                            &&& s.0 == box_sum(*frame, i + 1, y as int, 0)
                            &&& s.1 == box_sum(*frame, i + 1, y as int, 1)
                            &&& s.2 == box_sum(*frame, i + 1, y as int, 2)
                        },
                decreases w - 1 - x,
            {
                let mut r: u32 = 0;
                let mut g: u32 = 0;
                let mut b: u32 = 0;
                let mut dy: usize = 0;
                while dy < 3
                    invariant
                        frame.wf(),
                        w == frame.spec_width(),
                        h == frame.spec_height(),
                        1 <= y < h - 1,
                        1 <= x < w - 1,
                        dy <= 3,
                        r == partial_sum(*frame, x as int, y as int, 0, dy as int),
                        g == partial_sum(*frame, x as int, y as int, 1, dy as int),
                        b == partial_sum(*frame, x as int, y as int, 2, dy as int),
                        r <= 255 * 3 * dy,
                        g <= 255 * 3 * dy,
                        b <= 255 * 3 * dy,
                    decreases 3 - dy,
                {
                    let yy = y + dy - 1;
                    let p0 = frame.get(x - 1, yy);
                    let p1 = frame.get(x, yy);
                    let p2 = frame.get(x + 1, yy);
                    r = r + p0.r as u32 + p1.r as u32 + p2.r as u32;
                    g = g + p0.g as u32 + p1.g as u32 + p2.g as u32;
                    b = b + p0.b as u32 + p1.b as u32 + p2.b as u32;
                    dy = dy + 1;
                }
                proof {
                    reveal_with_fuel(partial_sum, 4);
                }
                assert(r == box_sum(*frame, x as int, y as int, 0));
                assert(g == box_sum(*frame, x as int, y as int, 1));
                assert(b == box_sum(*frame, x as int, y as int, 2));
                row.push((r, g, b));
                x = x + 1;
            }
            out.push(row);
            y = y + 1;
        }
        out
    }
}

/// The channel sums over the first `rows` rows of the three by three pixels around `(x, y)`.
pub open spec fn partial_sum(f: AvatarFrame, x: int, y: int, ch: int, rows: int) -> nat
    decreases rows,
{
    if rows <= 0 {
        0
    } else {
        partial_sum(f, x, y, ch, rows - 1) + channel(f.pixel(x - 1, y + rows - 2), ch) + channel(
            f.pixel(x, y + rows - 2),
            ch,
        ) + channel(f.pixel(x + 1, y + rows - 2), ch)
    }
}

} // verus!
