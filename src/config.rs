use crate::prompt::PromptConfig;
use vstd::prelude::*;

verus! {

/// Grid size and neighbour count of a run.
#[derive(Clone, Copy, Debug, PartialEq, Eq, Structural)]
pub struct Config {
    pub world_x: usize,
    pub world_y: usize,
    pub k: usize,
}

/// Default width and height of the grid.
pub fn default_world_xy() -> (r: usize)
    ensures
        r == 21,
{
    21
}

/// Default number of neighbours a query returns.
pub fn default_k() -> (r: usize)
    ensures
        r == 3,
{
    3
}

impl Config {
    /// The prompt bounds for this grid: coordinates run from `-(w - 1) / 2`
    /// to `(w - 1) / 2` on each axis, relative to the centre.
    pub fn prompt_config(&self) -> (r: PromptConfig)
        requires
            self.world_x >= 1,
            self.world_y >= 1,
        ensures
            r.spec_max_x() == (self.world_x - 1) / 2,
            r.spec_min_x() == -r.spec_max_x(),
            r.spec_max_y() == (self.world_y - 1) / 2,
            r.spec_min_y() == -r.spec_max_y(),
    {
        let x_val = ((self.world_x - 1) / 2) as u64;
        let y_val = ((self.world_y - 1) / 2) as u64;
        assert(x_val <= i64::MAX && y_val <= i64::MAX);
        let x_val = x_val as i64;
        let y_val = y_val as i64;
        PromptConfig::new(-x_val, x_val, -y_val, y_val)
    }
}

} // verus!
