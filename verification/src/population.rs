//! Particles, their kinds, and how a new particle is drawn.
//!
//! Every quantity is a whole number of thousandths: a friction of 920 damps a
//! velocity to 0.92 of itself.
use crate::geometry::Point;
use rand::Rng;
use vstd::prelude::*;

verus! {

/// The kind of a particle. It decides from which ranges the particle's fixed
/// parameters are drawn, and nothing else.
#[derive(Clone, Copy, Debug, PartialEq, Eq, Structural)]
pub enum ParticleType {
    /// Fast, reactive, small.
    Scout,
    /// Medium speed, persistent.
    Anchor,
    /// Slow, weakly attracted, large.
    Drifter,
}

/// One particle of the swarm.
#[derive(Clone, Copy, Debug, PartialEq, Eq, Structural)]
pub struct Particle {
    pub position: Point,
    pub vx: i32,
    pub vy: i32,
    pub target: Point,
    pub is_forming: bool,
    pub size: i32,
    pub friction: i32,
    pub ease: i32,
    pub max_speed: i32,
    pub attraction_strength: i32,
    pub particle_type: ParticleType,
}

/// The draws that make one particle, each as it comes from the generator.
#[derive(Clone, Copy, Debug)]
pub struct Draws {
    /// Chooses the kind: a fraction of one, in `0..1000`.
    pub kind: i32,
    /// Fractions of one, in `0..1000`, that place a parameter inside its range.
    pub size: i32,
    pub friction: i32,
    pub ease: i32,
    pub x: i32,
    pub y: i32,
    pub vx: i32,
    pub vy: i32,
}

/// The kind chosen by a draw: six in ten are scouts, a quarter anchors, the
/// rest drifters.
pub open spec fn kind_of(draw: int) -> ParticleType {
    if draw < 600 {
        ParticleType::Scout
    } else if draw < 850 {
        ParticleType::Anchor
    } else {
        ParticleType::Drifter
    }
}

/// The top speed of a kind.
pub open spec fn max_speed_of(kind: ParticleType) -> int {
    match kind {
        ParticleType::Scout => 6000,
        ParticleType::Anchor => 4000,
        ParticleType::Drifter => 5000,
    }
}

/// How strongly a kind is drawn to its target.
pub open spec fn attraction_of(kind: ParticleType) -> int {
    match kind {
        ParticleType::Scout => 1500,
        ParticleType::Anchor => 1800,
        ParticleType::Drifter => 800,
    }
}

/// Least size of a kind, and the width of the range above it.
pub open spec fn size_range(kind: ParticleType) -> (int, int) {
    match kind {
        ParticleType::Scout => (500, 1000),
        ParticleType::Anchor => (1000, 1500),
        ParticleType::Drifter => (1200, 2000),
    }
}

/// Least friction of a kind, and the width of the range above it.
pub open spec fn friction_range(kind: ParticleType) -> (int, int) {
    match kind {
        ParticleType::Scout => (920, 40),
        ParticleType::Anchor => (940, 30),
        ParticleType::Drifter => (920, 50),
    }
}

/// Least ease of a kind, and the width of the range above it.
pub open spec fn ease_range(kind: ParticleType) -> (int, int) {
    match kind {
        ParticleType::Scout => (120, 60),
        ParticleType::Anchor => (80, 40),
        ParticleType::Drifter => (100, 50),
    }
}

/// The value at fraction `draw` of the range `(low, span)`, rounded down.
pub open spec fn scaled(range: (int, int), draw: int) -> int {
    range.0 + draw * range.1 / 1000
}

/// `v` lies between nought and `extent`, nought included and `extent` not;
/// with no extent it is nought.
pub open spec fn within(v: int, extent: int) -> bool {
    if extent > 0 {
        0 <= v < extent
    } else {
        v == 0 || extent < v < 0
    }
}

/// The draws are such as the generator gives for a field of `width` by `height`.
pub open spec fn draws_valid(d: Draws, width: int, height: int) -> bool {
    &&& 0 <= d.kind < 1000
    &&& 0 <= d.size < 1000
    &&& 0 <= d.friction < 1000
    &&& 0 <= d.ease < 1000
    &&& within(d.x as int, width)
    &&& within(d.y as int, height)
    &&& -1000 <= d.vx < 1000
    &&& -1000 <= d.vy < 1000
}

/// The particle that the draws `d` make.
pub open spec fn particle_of(d: Draws) -> Particle {
    let kind = kind_of(d.kind as int);
    Particle {
        position: Point { x: d.x, y: d.y },
        vx: d.vx,
        vy: d.vy,
        target: Point { x: d.x, y: d.y },
        is_forming: false,
        size: scaled(size_range(kind), d.size as int) as i32,
        friction: scaled(friction_range(kind), d.friction as int) as i32,
        ease: scaled(ease_range(kind), d.ease as int) as i32,
        max_speed: max_speed_of(kind) as i32,
        attraction_strength: attraction_of(kind) as i32,
        particle_type: kind,
    }
}

impl Particle {
    /// The fixed parameters lie in the ranges of the particle's kind: friction
    /// above nought and at most one, the others above nought.
    pub open spec fn wf(&self) -> bool {
        let kind = self.particle_type;
        &&& self.max_speed == max_speed_of(kind)
        &&& self.attraction_strength == attraction_of(kind)
        &&& size_range(kind).0 <= self.size < size_range(kind).0 + size_range(kind).1
        &&& friction_range(kind).0 <= self.friction < friction_range(kind).0 + friction_range(
            kind,
        ).1
        &&& ease_range(kind).0 <= self.ease < ease_range(kind).0 + ease_range(kind).1
        &&& 0 < self.friction <= 1000
        &&& self.ease > 0
        &&& self.size >= 0
    }

    /// Makes a particle from its draws: at rest on no target, where it was
    /// placed, with the parameters of its kind.
    pub fn from_draws(d: Draws) -> (p: Particle)
        requires
            0 <= d.kind < 1000,
            0 <= d.size < 1000,
            0 <= d.friction < 1000,
            0 <= d.ease < 1000,
        ensures
            p == particle_of(d),
            p.wf(),
    {
        let kind = ParticleType::classify(d.kind);
        let (max_speed, attraction_strength): (i32, i32) = match kind {
            ParticleType::Scout => (6000, 1500),
            ParticleType::Anchor => (4000, 1800),
            ParticleType::Drifter => (5000, 800),
        };
        let (size_low, size_span): (i32, i32) = match kind {
            ParticleType::Scout => (500, 1000),
            ParticleType::Anchor => (1000, 1500),
            ParticleType::Drifter => (1200, 2000),
        };
        let (friction_low, friction_span): (i32, i32) = match kind {
            ParticleType::Scout => (920, 40),
            ParticleType::Anchor => (940, 30),
            ParticleType::Drifter => (920, 50),
        };
        let (ease_low, ease_span): (i32, i32) = match kind {
            ParticleType::Scout => (120, 60),
            ParticleType::Anchor => (80, 40),
            ParticleType::Drifter => (100, 50),
        };
        let position = Point { x: d.x, y: d.y };
        Particle {
            position,
            vx: d.vx,
            vy: d.vy,
            target: position,
            is_forming: false,
            size: size_low + spread(d.size, size_span),
            friction: friction_low + spread(d.friction, friction_span),
            ease: ease_low + spread(d.ease, ease_span),
            max_speed,
            attraction_strength,
            particle_type: kind,
        }
    }

    /// Draws a new particle for a field of `width` by `height`.
    pub fn spawn(width: i32, height: i32) -> (p: Particle)
        ensures
            p.wf(),
            !p.is_forming,
            p.target == p.position,
            within(p.position.x as int, width as int),
            within(p.position.y as int, height as int),
            -1000 <= p.vx < 1000,
            -1000 <= p.vy < 1000,
            exists|d: Draws| draws_valid(d, width as int, height as int) && p == particle_of(d),
    {
        let d = Draws {
            kind: draw(0, 1000),
            size: draw(0, 1000),
            friction: draw(0, 1000),
            ease: draw(0, 1000),
            x: draw_within(width),
            y: draw_within(height),
            vx: draw(-1000, 1000),
            vy: draw(-1000, 1000),
        };
        assert(draws_valid(d, width as int, height as int));
        Particle::from_draws(d)
    }
}

impl ParticleType {
    /// The kind that a draw in `0..1000` chooses.
    pub fn classify(draw: i32) -> (kind: ParticleType)
        ensures
            kind == kind_of(draw as int),
    {
        if draw < 600 {
            ParticleType::Scout
        } else if draw < 850 {
            ParticleType::Anchor
        } else {
            ParticleType::Drifter
        }
    }
}

/// The part of `span` that the fraction `draw` covers, rounded down.
fn spread(draw: i32, span: i32) -> (r: i32)
    requires
        0 <= draw < 1000,
        0 <= span <= 2000,
    ensures
        r == draw * span / 1000,
        0 <= r,
        span > 0 ==> r < span,
{
    assert(0 <= draw * span <= 999 * span) by (nonlinear_arith)
        requires
            0 <= draw <= 999,
            0 <= span,
    ;
    let product: u32 = draw as u32 * span as u32;
    (product / 1000) as i32
}

/// A coordinate drawn between nought and `extent`; nought where `extent` is nought.
fn draw_within(extent: i32) -> (v: i32)
    ensures
        within(v as int, extent as int),
{
    if extent > 0 {
        draw(0, extent)
    } else if extent < 0 {
        draw(extent + 1, 1)
    } else {
        0
    }
}

/// Calls `rand::Rng::gen_range` on the generator of the current thread,
/// `rand::thread_rng()`, with the half-open range `low..high`. Trusted: the
/// value lies in that range; an empty range, on which `gen_range` panics, is
/// left out. Which value comes is not stated.
#[verifier::external_body]
fn draw(low: i32, high: i32) -> (v: i32)
    requires
        low < high,
    ensures
        low <= v < high,
{
    rand::thread_rng().gen_range(low..high)
}

} // verus!
