//! A rectangular grid of colours, written one pixel at a time.

use crate::color::{black, Color};
use vstd::prelude::*;

verus! {

/// A pixel grid held column by column: `pixels[x][y]` is the pixel in column
/// `x` and row `y`.
pub struct Canvas {
    pub pixels: Vec<Vec<Color>>,
    pub width: i64,
    pub height: i64,
}

/// The number of cells along one side: a negative extent holds none.
pub open spec fn extent(n: i64) -> nat {
    if n < 0 {
        0
    } else {
        n as nat
    }
}

impl Canvas {
    /// The grid has `width` columns of `height` pixels each.
    pub open spec fn wf(&self) -> bool {
        &&& self.pixels.len() == extent(self.width)
        &&& forall|x: int|
            0 <= x < self.pixels.len() ==> (#[trigger] self.pixels[x]).len() == extent(
                self.height,
            )
    }

    /// The pixel in column `x` and row `y`.
    pub open spec fn at(&self, x: int, y: int) -> Color {
        self.pixels[x][y]
    }

    /// Whether `(x, y)` names a cell of the grid.
    pub open spec fn holds(&self, x: int, y: int) -> bool {
        0 <= x < self.width && 0 <= y < self.height
    }
}

/// A canvas of `width` by `height` pixels, all black.
pub fn canvas(width: i64, height: i64) -> (c: Canvas)
    ensures
        c.wf(),
        c.width == width,
        c.height == height,
        forall|x: int, y: int| c.holds(x, y) ==> c.at(x, y) == black(),
{
    let mut pixels: Vec<Vec<Color>> = Vec::new();
    let mut x: i64 = 0;
    while x < width
        invariant
            0 <= x,
            x <= extent(width),
            pixels.len() == x,
            forall|i: int| 0 <= i < pixels.len() ==> (#[trigger] pixels[i]).len() == extent(height),
            forall|i: int, j: int|
                0 <= i < pixels.len() && 0 <= j < height ==> (#[trigger] pixels[i][j]) == black(),
        decreases width - x,
    {
        let mut col: Vec<Color> = Vec::new();
        let mut y: i64 = 0;
        while y < height
            invariant
                0 <= y,
                y <= extent(height),
                col.len() == y,
                forall|j: int| 0 <= j < col.len() ==> (#[trigger] col[j]) == black(),
            decreases height - y,
        {
            col.push(Color { red: 0, green: 0, blue: 0 });
            y = y + 1;
        }
        pixels.push(col);
        x = x + 1;
    }
    Canvas { pixels, width, height }
}

/// Overwrites the pixel at `(x, y)`; every other pixel keeps its colour.
pub fn write_pixel(canvas: &mut Canvas, x: i64, y: i64, color: Color)
    requires
        old(canvas).wf(),
        old(canvas).holds(x as int, y as int),
    ensures
        final(canvas).wf(),
        final(canvas).width == old(canvas).width,
        final(canvas).height == old(canvas).height,
        final(canvas).at(x as int, y as int) == color,
        forall|i: int, j: int|
            old(canvas).holds(i, j) && !(i == x && j == y) ==> final(canvas).at(i, j) == old(
                canvas,
            ).at(i, j),
{
    assert(x < canvas.pixels.len() && y < canvas.pixels[x as int].len());
    canvas.pixels[x as usize][y as usize] = color;
}

/// Reads the pixel at `(x, y)` and leaves the canvas as it was.
pub fn pixel_at(canvas: &mut Canvas, x: i64, y: i64) -> (c: Color)
    requires
        old(canvas).wf(),
        old(canvas).holds(x as int, y as int),
    ensures
        c == old(canvas).at(x as int, y as int),
        *final(canvas) == *old(canvas),
{
    assert(x < canvas.pixels.len() && y < canvas.pixels[x as int].len());
    canvas.pixels[x as usize][y as usize]
}

} // verus!
