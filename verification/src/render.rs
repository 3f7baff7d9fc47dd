//! Event payloads of the rendering collaborator: the phase markers its
//! plugins fire each frame, in order, through the core's event bus. The GPU
//! work itself lives outside this crate.

use vstd::prelude::*;

use crate::entity::Entity;

verus! {

/// Fired once, after the device is available, to build render resources.
#[derive(Clone, Copy, PartialEq, Eq, Structural, Hash, Debug)]
pub struct InitRenderResources;

/// Fired each frame before rendering.
#[derive(Clone, Copy, PartialEq, Eq, Structural, Hash, Debug)]
pub struct PreRender;

/// Fired each frame to render.
#[derive(Clone, Copy, PartialEq, Eq, Structural, Hash, Debug)]
pub struct Render;

/// Fired each frame after rendering.
#[derive(Clone, Copy, PartialEq, Eq, Structural, Hash, Debug)]
pub struct PostRender;

/// Fired by the render handler when a frame's command encoding begins.
#[derive(Clone, Copy, PartialEq, Eq, Structural, Hash, Debug)]
pub struct BeginRender;

/// Fired by the render handler when a frame's command encoding ends.
#[derive(Clone, Copy, PartialEq, Eq, Structural, Hash, Debug)]
pub struct EndRender;

/// Event payload asking for a view target on a camera entity.
#[derive(Clone, Copy, PartialEq, Eq, Structural, Hash, Debug)]
pub struct InsertViewTarget {
    pub camera: Entity,
}

} // verus!
