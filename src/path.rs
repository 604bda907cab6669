use vstd::prelude::*;

verus! {

/// What tracing one segment of a path into the scene found.
#[derive(Clone, Copy, Debug, PartialEq, Eq, Structural)]
pub enum Segment {
    /// The ray hit nothing.
    Miss,
    /// The ray hit a surface whose material absorbed it.
    Absorbed,
    /// The ray hit a surface whose material scattered it into a new ray.
    Scattered,
}

/// A path being traced, with the number of segments it may still trace.
#[derive(Clone, Copy, Debug, PartialEq, Eq, Structural)]
pub struct Path {
    pub remaining: u32,
}

/// How the colour of a path segment is made.
#[derive(Clone, Copy, Debug, PartialEq, Eq, Structural)]
pub enum Shade {
    /// Black: the energy is absorbed.
    Black,
    /// The background gradient, by the ray's direction.
    Sky,
    /// The material's attenuation times the colour of the scattered ray,
    /// traced on as `next`.
    Bounce { next: Path },
}

/// How a segment of `p` that found `found` is coloured: a miss shows the
/// sky, an absorption is black, a scatter bounces on with one segment fewer.
pub open spec fn shade_of(p: Path, found: Segment) -> Shade {
    match found {
        Segment::Miss => Shade::Sky,
        Segment::Absorbed => Shade::Black,
        Segment::Scattered => Shade::Bounce { next: Path { remaining: (p.remaining - 1) as u32 } },
    }
}

/// The number of segments that a path from `p` traces when its segments find
/// `found` in turn, until it ends or `found` runs out.
pub open spec fn traced(p: Path, found: Seq<Segment>) -> nat
    decreases found.len(),
{
    if found.len() == 0 || p.remaining == 0 {
        0
    } else {
        match shade_of(p, found[0]) {
            Shade::Bounce { next } => 1 + traced(next, found.drop_first()),
            _ => 1,
        }
    }
}

/// A path traces at most as many segments as its depth allows, whatever the
/// scene and materials do: the work of one sample is bounded by the depth.
pub proof fn lemma_depth_bounds_work(p: Path, found: Seq<Segment>)
    ensures
        traced(p, found) <= p.remaining,
    decreases found.len(),
{
    if found.len() > 0 && p.remaining > 0 {
        if let Shade::Bounce { next } = shade_of(p, found[0]) {
            lemma_depth_bounds_work(next, found.drop_first());
        }
    }
}

impl Path {
    /// A path that may trace up to `max_depth` segments.
    pub fn new(max_depth: u32) -> (r: Path)
        ensures
            r.remaining == max_depth,
    {
        Path { remaining: max_depth }
    }

    /// Whether the path may trace another segment; one that may not is black.
    pub fn can_trace(&self) -> (r: bool)
        ensures
            r == (self.remaining > 0),
    {
        self.remaining > 0
    }

    /// How the segment just traced is coloured, given what it found.
    pub fn shade(&self, found: Segment) -> (r: Shade)
        requires
            self.remaining > 0,
        ensures
            r == shade_of(*self, found),
            r matches Shade::Bounce { next } ==> next.remaining == self.remaining - 1,
    {
        match found {
            Segment::Miss => Shade::Sky,
            Segment::Absorbed => Shade::Black,
            Segment::Scattered => Shade::Bounce { next: Path { remaining: self.remaining - 1 } },
        }
    }
}

} // verus!
