//! The drawing interface that a front end implements.

use vstd::prelude::*;

verus! {

/// Names an off-screen surface that can be drawn to.
pub type RenderTargetId = usize;

/// Names a loaded texture.
pub type TextureId = usize;

/// What the battle needs from whatever draws it.
pub trait Renderer {
    /// Draws the texture to the screen.
    fn draw_texture(&mut self, texture: TextureId);

    /// Draws the texture to the given surface.
    fn draw_texture_on_target(&mut self, target: RenderTargetId, texture: TextureId);
}

} // verus!
