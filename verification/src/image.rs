use vstd::prelude::*;

verus! {

/// A fixed-size two-dimensional grid of sample values, stored row-major:
/// the sample at column `x` of row `y` sits at index `y * width + x`.
///
/// The element type is a parameter so that the same shape logic serves both
/// raw images (unsigned bytes) and accumulated per-label sums (a wider
/// unsigned integer).
pub struct Image<T> {
    pub width: u32,
    pub height: u32,
    pub data: Vec<T>,
}

impl<T> Image<T> {
    /// The grid is well formed exactly when it holds `width * height` samples.
    pub open spec fn wf(self) -> bool {
        self.data@.len() == self.width * self.height
    }

    /// The sample at column `x` of row `y`, in the row-major layout.
    pub open spec fn pixel(self, x: int, y: int) -> T {
        self.data@[y * self.width + x]
    }

    /// Builds a grid from its dimensions and its row-major sample data.
    /// A sample count that disagrees with the dimensions is a programming
    /// error, not a recoverable condition, so it is ruled out up front.
    pub fn new(width: u32, height: u32, data: Vec<T>) -> (img: Image<T>)
        requires
            data@.len() == width * height,
        ensures
            img.width == width,
            img.height == height,
            img.data == data,
            img.wf(),
    {
        Image { width, height, data }
    }
}

} // verus!
