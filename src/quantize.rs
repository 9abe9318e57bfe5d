//! Lossy compact encoding of a position: a coarse grid cell as a signed byte
//! pair and the offset inside the cell as an unsigned byte pair.
//!
//! Positions are fixed-point: one unit is one sub-cell step, a 256th of a
//! cell's extent, so a cell spans `SUB_STEPS` units on each axis.
use vstd::prelude::*;

verus! {

/// Sub-cell steps per cell on each axis.
pub const SUB_STEPS: i64 = 256;

/// The smallest coordinate, in sub-cell steps, that a grid cell can hold.
pub const MIN_STEPS: i64 = -32768;

/// The largest coordinate, in sub-cell steps, that a grid cell can hold.
pub const MAX_STEPS: i64 = 32767;

/// A position compressed to a grid cell and a sub-cell offset on each axis.
#[derive(Debug, Clone, Copy, PartialEq, Eq, Structural)]
pub struct QuantizedPosition {
    pub grid_x: i8,
    pub grid_y: i8,
    pub sub_x: u8,
    pub sub_y: u8,
}

/// The coordinate, in sub-cell steps, that a grid cell and offset stand for.
pub open spec fn axis_value(grid: i8, sub: u8) -> int {
    grid * SUB_STEPS + sub
}

/// `p` saturated to the range that the grid can hold.
pub open spec fn clamp_steps(p: int) -> int {
    if p < MIN_STEPS {
        MIN_STEPS as int
    } else if p > MAX_STEPS {
        MAX_STEPS as int
    } else {
        p
    }
}

/// Splits one coordinate, in sub-cell steps, into its grid cell (the floor of
/// `p / 256`) and its offset inside the cell. A coordinate beyond the grid
/// saturates to the nearest cell edge that the grid holds.
pub fn quantize_axis(p: i64) -> (r: (i8, u8))
    ensures
        axis_value(r.0, r.1) == clamp_steps(p as int),
{
    let c: i64 = if p < MIN_STEPS {
        MIN_STEPS
    } else if p > MAX_STEPS {
        MAX_STEPS
    } else {
        p
    };
    let shifted: i64 = c + 32768;
    let grid: i64 = shifted / 256 - 128;
    let sub: i64 = shifted % 256;
    assert(shifted == (shifted / 256) * 256 + shifted % 256);
    (grid as i8, sub as u8)
}

/// The coordinate, in sub-cell steps, that a grid cell and offset stand for.
pub fn dequantize_axis(grid: i8, sub: u8) -> (r: i64)
    ensures
        r == axis_value(grid, sub),
{
    grid as i64 * SUB_STEPS + sub as i64
}

impl QuantizedPosition {
    /// Quantizes a position given in sub-cell steps, saturating each axis to
    /// the grid.
    pub fn quantize(x: i64, y: i64) -> (r: QuantizedPosition)
        ensures
            axis_value(r.grid_x, r.sub_x) == clamp_steps(x as int),
            axis_value(r.grid_y, r.sub_y) == clamp_steps(y as int),
    {
        let (grid_x, sub_x) = quantize_axis(x);
        let (grid_y, sub_y) = quantize_axis(y);
        QuantizedPosition { grid_x, grid_y, sub_x, sub_y }
    }

    /// The position, in sub-cell steps, that this quantized position stands for.
    pub fn dequantize(&self) -> (r: (i64, i64))
        ensures
            r.0 == axis_value(self.grid_x, self.sub_x),
            r.1 == axis_value(self.grid_y, self.sub_y),
    {
        (dequantize_axis(self.grid_x, self.sub_x), dequantize_axis(self.grid_y, self.sub_y))
    }
}

/// Every grid cell and offset stand for a coordinate that the grid holds, and
/// distinct cells and offsets stand for distinct coordinates.
pub proof fn lemma_axis_unique(g1: i8, s1: u8, g2: i8, s2: u8)
    ensures
        MIN_STEPS <= axis_value(g1, s1) <= MAX_STEPS,
        axis_value(g1, s1) == axis_value(g2, s2) ==> g1 == g2 && s1 == s2,
{
}

/// Quantizing and then dequantizing a coordinate that the grid holds gives it
/// back exactly, so the error stays under one sub-cell step; a coordinate
/// beyond the grid comes back saturated to the grid's edge.
pub proof fn lemma_quantize_round_trip(p: int, grid: i8, sub: u8)
    requires
        axis_value(grid, sub) == clamp_steps(p),
    ensures
        MIN_STEPS <= p <= MAX_STEPS ==> axis_value(grid, sub) == p,
        p < MIN_STEPS ==> axis_value(grid, sub) == MIN_STEPS,
        p > MAX_STEPS ==> axis_value(grid, sub) == MAX_STEPS,
        MIN_STEPS <= p <= MAX_STEPS ==> grid as int == p / SUB_STEPS as int && sub as int == p
            % SUB_STEPS as int,
{
}

} // verus!
