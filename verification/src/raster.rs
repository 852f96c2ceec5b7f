//! Enumeration of the pixel coordinates of a raster image.
//!
//! The renderer maps a per-pixel sampling function over every `(row, col)`
//! coordinate of the viewport; the coordinates are laid out row-major, so
//! that the result of the map lands in the framebuffer slot of its pixel.

use vstd::prelude::*;

verus! {

/// All pixel coordinates `(row, col)` of a `height x width` image in
/// row-major order: the pair `(i, j)` sits at index `i * width + j`.
pub fn pixel_grid(height: usize, width: usize) -> (grid: Vec<(usize, usize)>)
    requires
        height * width <= usize::MAX,
    ensures
        grid@.len() == height * width,
        forall|i: int, j: int|
            0 <= i < height && 0 <= j < width ==> #[trigger] grid@[i * width + j] == (i as usize, j as usize),
{
    let mut grid: Vec<(usize, usize)> = Vec::new();
    let mut row: usize = 0;
    while row < height
        invariant
            row <= height,
            height * width <= usize::MAX,
            grid@.len() == row * width,
            forall|i: int, j: int|
                0 <= i < row && 0 <= j < width ==> #[trigger] grid@[i * width + j] == (i as usize, j as usize),
        decreases height - row,
    {
        let mut col: usize = 0;
        proof {
            assert((row + 1) * width <= height * width) by (nonlinear_arith)
                requires row < height, 0 <= width;
        }
        while col < width
            invariant
                row < height,
                col <= width,
                (row + 1) * width <= usize::MAX,
                grid@.len() == row * width + col,
                forall|i: int, j: int|
                    0 <= i < row && 0 <= j < width ==> #[trigger] grid@[i * width + j] == (i as usize, j as usize),
                forall|j: int| 0 <= j < col ==> #[trigger] grid@[row * width + j] == (row, j as usize),
            decreases width - col,
        {
            proof {
                assert(row * width + width <= usize::MAX) by (nonlinear_arith)
                    requires (row + 1) * width <= usize::MAX, 0 <= row, 0 <= width;
                assert forall|i: int, j: int|
                    0 <= i < row && 0 <= j < width implies #[trigger] (i * width + j) < row * width by {
                    assert(i * width + j < row * width) by (nonlinear_arith)
                        requires 0 <= i < row, 0 <= j < width;
                };
            }
            grid.push((row, col));
            col = col + 1;
        }
        row = row + 1;
        proof {
            assert(row * width == (row - 1) * width + width) by (nonlinear_arith);
        }
    }
    grid
}

} // verus!
