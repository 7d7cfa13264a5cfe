//! The scene: primitives, lights and a background, kept in insertion order.
use vstd::prelude::*;

verus! {

/// Everything a render reads: primitives `R`, lights `L` and the colour `C`
/// of rays that leave the scene. Scans go in insertion order, so the first
/// of two equally near hits is always the same one.
pub struct Scene<R, L, C> {
    background: C,
    lights: Vec<L>,
    renderables: Vec<R>,
}

impl<R, L, C> Scene<R, L, C> {
    pub closed spec fn spec_background(&self) -> C {
        self.background
    }

    pub closed spec fn spec_lights(&self) -> Seq<L> {
        self.lights@
    }

    pub closed spec fn spec_renderables(&self) -> Seq<R> {
        self.renderables@
    }

    /// An empty scene with this background.
    pub fn new(background: C) -> (r: Scene<R, L, C>)
        ensures
            r.spec_background() == background,
            r.spec_lights().len() == 0,
            r.spec_renderables().len() == 0,
    {
        Scene { background, lights: Vec::new(), renderables: Vec::new() }
    }

    /// The primitives, in the order they were added.
    pub fn get_renderables(&self) -> (r: &Vec<R>)
        ensures
            r@ == self.spec_renderables(),
    {
        &self.renderables
    }

    /// The lights, in the order they were added.
    pub fn get_lights(&self) -> (r: &Vec<L>)
        ensures
            r@ == self.spec_lights(),
    {
        &self.lights
    }

    /// The colour of primary rays that hit nothing.
    pub fn get_background(&self) -> (r: &C)
        ensures
            *r == self.spec_background(),
    {
        &self.background
    }

    /// Appends a light.
    pub fn add_light(&mut self, light: L)
        ensures
            final(self).spec_lights() == old(self).spec_lights().push(light),
            final(self).spec_renderables() == old(self).spec_renderables(),
            final(self).spec_background() == old(self).spec_background(),
    {
        self.lights.push(light);
    }

    /// Appends a primitive.
    pub fn add_renderable(&mut self, renderable: R)
        ensures
            final(self).spec_renderables() == old(self).spec_renderables().push(renderable),
            final(self).spec_lights() == old(self).spec_lights(),
            final(self).spec_background() == old(self).spec_background(),
    {
        self.renderables.push(renderable);
    }
}

} // verus!
