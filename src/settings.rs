//! User settings of the client.
use vstd::prelude::*;

verus! {

#[derive(Debug, Clone, Copy)]
pub struct Settings {
    pub window_size: (u32, u32),
    pub invert_mouse: bool,
    pub render_distance: (u64, u64, u64, u64, u64, u64),
}

impl Default for Settings {
    fn default() -> (r: Settings)
        ensures
            r.window_size == (1600u32, 900u32),
            !r.invert_mouse,
            r.render_distance == (0u64, 0u64, 0u64, 0u64, 0u64, 0u64),
    {
        Settings { window_size: (1600, 900), invert_mouse: false, render_distance: (0, 0, 0, 0, 0, 0) }
    }
}

} // verus!
