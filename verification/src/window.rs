//! Event payloads and settings of the windowing collaborator. The window
//! itself — event loop, surface, input — lives outside this crate; these
//! are the plain values its plugin exchanges with the event bus.

use vstd::prelude::*;

verus! {

/// How the windowing backend should open its window.
#[derive(Clone, PartialEq, Eq, Hash, Debug)]
pub struct WindowSettings {
    pub title: String,
    pub width: u32,
    pub height: u32,
}

impl WindowSettings {
    pub fn new(title: String, width: u32, height: u32) -> (r: WindowSettings)
        ensures
            r.title == title,
            r.width == width,
            r.height == height,
    {
        WindowSettings { title, width, height }
    }
}

/// Event payload: the window was resized.
#[derive(Clone, Copy, PartialEq, Eq, Structural, Hash, Debug)]
pub struct WindowResized {
    pub new_width: u32,
    pub new_height: u32,
}

/// Event payload: the host asked for a redraw.
#[derive(Clone, Copy, PartialEq, Eq, Structural, Hash, Debug)]
pub struct RedrawRequested;

} // verus!
