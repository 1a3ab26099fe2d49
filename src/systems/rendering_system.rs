use vstd::prelude::*;

use crate::components::{Renderable, RenderableKind};

verus! {

/// The number of animation frames a cycle shows before it starts over.
pub const FRAMES_PER_CYCLE: usize = 4;

/// Picks the images entities are drawn with.
pub struct RenderingSystem {}

impl RenderingSystem {
    /// The image a renderable shows at animation step `step` (the number of
    /// quarter seconds elapsed): a still image always shows its one path; an
    /// animation cycles through four steps, wrapping around its frames.
    pub fn get_image(&mut self, renderable: &Renderable, step: usize) -> (r: String)
        requires
            renderable.paths@.len() > 0,
        ensures
            renderable.spec_kind() == RenderableKind::Static ==> r@ == renderable.paths@[0]@,
            renderable.spec_kind() == RenderableKind::Animated ==> r@ == renderable.paths@[((step
                % FRAMES_PER_CYCLE) as int) % (renderable.paths@.len() as int)]@,
    {
        let path_index = match renderable.kind() {
            RenderableKind::Static => 0,
            RenderableKind::Animated => step % FRAMES_PER_CYCLE,
        };
        renderable.path(path_index)
    }
}

} // verus!
