//! The substrate: the swarm, its targets, its field and its render buffer.
use crate::assign::{assign, assignment};
use crate::geometry::Point;
use crate::laws::{injective, lemma_assignment_shape};
use crate::motion::{breathing, breathing_of, phase, phase_of, step_particle, stepped, Field};
use crate::population::{within, Particle};
use crate::report::{render_stats, stats_text};
use vstd::prelude::*;

verus! {

/// The positions of the particles, in order.
pub open spec fn positions(particles: Seq<Particle>) -> Seq<Point> {
    Seq::new(particles.len(), |i: int| particles[i].position)
}

/// The points that a flat sequence of coordinates holds, two values each; a
/// last value without a partner is dropped.
pub open spec fn pairs(coords: Seq<i32>) -> Seq<Point> {
    Seq::new((coords.len() / 2) as nat, |i: int| Point { x: coords[2 * i], y: coords[2 * i + 1] })
}

/// The particle with its target replaced where it is given one; without one
/// it floats and keeps the target it had.
pub open spec fn retarget(p: Particle, slot: Option<usize>, targets: Seq<Point>) -> Particle {
    match slot {
        Some(j) => Particle { target: targets[j as int], is_forming: true, ..p },
        None => Particle { is_forming: false, ..p },
    }
}

/// The swarm after it was assigned anew to `targets`.
pub open spec fn reassigned(particles: Seq<Particle>, targets: Seq<Point>) -> Seq<Particle> {
    Seq::new(
        particles.len(),
        |i: int| retarget(particles[i], assignment(positions(particles), targets)[i], targets),
    )
}

/// The value at place `k` of the render buffer: for each particle in turn its
/// position, its size, and one for a forming particle, nought for a floating one.
pub open spec fn render_value(particles: Seq<Particle>, k: int) -> i32 {
    let p = particles[k / 4];
    if k % 4 == 0 {
        p.position.x
    } else if k % 4 == 1 {
        p.position.y
    } else if k % 4 == 2 {
        p.size
    } else if p.is_forming {
        1000
    } else {
        0
    }
}

/// The render buffer of a swarm.
pub open spec fn rendered(particles: Seq<Particle>) -> Seq<i32> {
    Seq::new(4 * particles.len(), |k: int| render_value(particles, k))
}

/// How many of the first `n` particles are forming.
pub open spec fn forming_count(particles: Seq<Particle>, n: int) -> int
    decreases n,
{
    if n <= 0 {
        0
    } else {
        forming_count(particles, n - 1) + if particles[n - 1].is_forming {
            1int
        } else {
            0int
        }
    }
}

/// What the substrate holds, in numbers.
#[derive(Clone, Copy, Debug, PartialEq, Eq, Structural)]
pub struct Stats {
    pub particles: usize,
    pub forming: usize,
    pub floating: usize,
    pub text_coords: usize,
}

/// Owns the particles and all that acts on them.
pub struct SwarmSubstrate {
    particles: Vec<Particle>,
    text_coords: Vec<Point>,
    render_buffer: Vec<i32>,
    width: i32,
    height: i32,
    mouse_x: i32,
    mouse_y: i32,
    mouse_active: bool,
    time: u64,
}

/// By how much a step advances the clock: a fiftieth of a unit of time.
pub const TIME_STEP: u64 = 20;

impl SwarmSubstrate {
    /// The particles, in order.
    pub closed spec fn particles(&self) -> Seq<Particle> {
        self.particles@
    }

    /// The current targets, in order.
    pub closed spec fn targets(&self) -> Seq<Point> {
        self.text_coords@
    }

    /// The render buffer as it was last filled.
    pub closed spec fn buffer(&self) -> Seq<i32> {
        self.render_buffer@
    }

    /// Width and height of the field.
    pub closed spec fn extent(&self) -> (i32, i32) {
        (self.width, self.height)
    }

    /// Where the pointer is, and whether it acts on the swarm.
    pub closed spec fn pointer(&self) -> (i32, i32, bool) {
        (self.mouse_x, self.mouse_y, self.mouse_active)
    }

    /// The clock: the time simulated so far, in thousandths.
    pub closed spec fn clock(&self) -> u64 {
        self.time
    }

    /// What surrounds the particles: the field and the pointer.
    pub open spec fn field(&self) -> Field {
        Field {
            width: self.extent().0,
            height: self.extent().1,
            mouse_x: self.pointer().0,
            mouse_y: self.pointer().1,
            mouse_active: self.pointer().2,
        }
    }

    /// The render buffer has four places for each particle, and the fixed
    /// parameters of each particle lie in the ranges of its kind.
    pub closed spec fn wf(&self) -> bool {
        &&& self.render_buffer@.len() == 4 * self.particles@.len()
        &&& forall|i: int| 0 <= i < self.particles@.len() ==> (#[trigger] self.particles@[i]).wf()
    }

    /// A substrate of `particle_count` particles drawn at random over a field
    /// of `width` by `height`: all floating, each on its own position as
    /// target; no targets, the pointer idle at the origin, the buffer zeroed.
    pub fn new(width: i32, height: i32, particle_count: usize) -> (s: SwarmSubstrate)
        requires
            4 * particle_count <= usize::MAX,
        ensures
            s.wf(),
            s.particles().len() == particle_count,
            s.targets().len() == 0,
            s.extent() == (width, height),
            s.pointer() == (0i32, 0i32, false),
            s.clock() == 0,
            s.buffer() == Seq::new(4 * particle_count as nat, |k: int| 0i32),
            forall|i: int|
                0 <= i < particle_count ==> {
                    let p = #[trigger] s.particles()[i];
                    &&& p.wf()
                    &&& !p.is_forming
                    &&& p.target == p.position
                    &&& within(p.position.x as int, width as int)
                    &&& within(p.position.y as int, height as int)
                    &&& -1000 <= p.vx < 1000
                    &&& -1000 <= p.vy < 1000
                },
    {
        let mut particles: Vec<Particle> = Vec::new();
        let mut i: usize = 0;
        while i < particle_count
            invariant
                i <= particle_count,
                particles@.len() == i,
                forall|x: int|
                    0 <= x < i ==> {
                        let p = #[trigger] particles@[x];
                        &&& p.wf()
                        &&& !p.is_forming
                        &&& p.target == p.position
                        &&& within(p.position.x as int, width as int)
                        &&& within(p.position.y as int, height as int)
                        &&& -1000 <= p.vx < 1000
                        &&& -1000 <= p.vy < 1000
                    },
            decreases particle_count - i,
        {
            particles.push(Particle::spawn(width, height));
            i += 1;
        }
        SwarmSubstrate::from_particles(width, height, particles)
    }

    /// A substrate of the given particles, as they are: no targets, the
    /// pointer idle at the origin, the buffer zeroed.
    pub fn from_particles(width: i32, height: i32, particles: Vec<Particle>) -> (s: SwarmSubstrate)
        requires
            4 * particles@.len() <= usize::MAX,
            forall|i: int| 0 <= i < particles@.len() ==> (#[trigger] particles@[i]).wf(),
        ensures
            s.wf(),
            s.particles() == particles@,
            s.targets().len() == 0,
            s.extent() == (width, height),
            s.pointer() == (0i32, 0i32, false),
            s.clock() == 0,
            s.buffer() == Seq::new(4 * particles@.len(), |k: int| 0i32),
    {
        let n: usize = particles.len() * 4;
        let mut render_buffer: Vec<i32> = Vec::new();
        let mut k: usize = 0;
        while k < n
            invariant
                k <= n,
                render_buffer@ == Seq::new(k as nat, |x: int| 0i32),
            decreases n - k,
        {
            render_buffer.push(0);
            assert(render_buffer@ =~= Seq::new((k + 1) as nat, |x: int| 0i32));
            k += 1;
        }
        SwarmSubstrate {
            particles,
            text_coords: Vec::new(),
            render_buffer,
            width,
            height,
            mouse_x: 0,
            mouse_y: 0,
            mouse_active: false,
            time: 0,
        }
    }

    /// Replaces the targets by the points of `coords` and assigns the swarm
    /// anew. With no point in `coords`, every particle floats afterwards.
    pub fn set_text_coords(&mut self, coords: &[i32])
        requires
            old(self).wf(),
        ensures
            final(self).wf(),
            final(self).targets() == pairs(coords@),
            final(self).particles() == reassigned(old(self).particles(), pairs(coords@)),
            coords@.len() < 2 ==> forall|i: int|
                0 <= i < final(self).particles().len() ==> !(#[trigger] final(self).particles()[i]).is_forming,
            final(self).buffer() == old(self).buffer(),
            final(self).extent() == old(self).extent(),
            final(self).pointer() == old(self).pointer(),
            final(self).clock() == old(self).clock(),
    {
        let given: usize = coords.len();
        let count: usize = given / 2;
        let mut text_coords: Vec<Point> = Vec::new();
        let mut i: usize = 0;
        while i < count
            invariant
                i <= count,
                given == coords@.len(),
                count == coords@.len() / 2,
                text_coords@.len() == i,
                forall|x: int| 0 <= x < i ==> #[trigger] text_coords@[x] == pairs(coords@)[x],
            decreases count - i,
        {
            text_coords.push(Point { x: coords[2 * i], y: coords[2 * i + 1] });
            i += 1;
        }
        assert(text_coords@ =~= pairs(coords@));
        let n: usize = self.particles.len();
        let mut places: Vec<Point> = Vec::new();
        i = 0;
        while i < n
            invariant
                i <= n,
                n == self.particles@.len(),
                places@.len() == i,
                forall|x: int| 0 <= x < i ==> #[trigger] places@[x] == self.particles@[x].position,
            decreases n - i,
        {
            places.push(self.particles[i].position);
            i += 1;
        }
        assert(places@ =~= positions(self.particles@));
        let slots = assign(&places, &text_coords);
        proof {
            lemma_assignment_shape(places@, text_coords@);
        }
        let ghost before = self.particles@;
        i = 0;
        while i < n
            invariant
                i <= n,
                n == before.len(),
                self.particles@.len() == n,
                slots@ == assignment(positions(before), text_coords@),
                slots@.len() == n,
                injective(slots@, text_coords@.len() as int),
                forall|x: int|
                    0 <= x < i ==> #[trigger] self.particles@[x] == retarget(
                        before[x],
                        slots@[x],
                        text_coords@,
                    ),
                forall|x: int| i <= x < n ==> #[trigger] self.particles@[x] == before[x],
                self.render_buffer@ == old(self).render_buffer@,
                self.width == old(self).width,
                self.height == old(self).height,
                self.mouse_x == old(self).mouse_x,
                self.mouse_y == old(self).mouse_y,
                self.mouse_active == old(self).mouse_active,
                self.time == old(self).time,
            decreases n - i,
        {
            let mut p: Particle = self.particles[i];
            match slots[i] {
                Some(j) => {
                    p.target = text_coords[j];
                    p.is_forming = true;
                },
                None => {
                    p.is_forming = false;
                },
            }
            self.particles.set(i, p);
            i += 1;
        }
        assert(self.particles@ =~= reassigned(before, text_coords@));
        self.text_coords = text_coords;
    }

    /// Replaces the pointer's state.
    pub fn set_mouse(&mut self, x: i32, y: i32, active: bool)
        ensures
            final(self).pointer() == (x, y, active),
            final(self).clock() == old(self).clock(),
            final(self).particles() == old(self).particles(),
            final(self).targets() == old(self).targets(),
            final(self).buffer() == old(self).buffer(),
            final(self).extent() == old(self).extent(),
            final(self).wf() == old(self).wf(),
    {
        self.mouse_x = x;
        self.mouse_y = y;
        self.mouse_active = active;
    }

    /// Replaces the extent of the field. No particle moves.
    pub fn resize(&mut self, width: i32, height: i32)
        ensures
            final(self).extent() == (width, height),
            final(self).particles() == old(self).particles(),
            final(self).targets() == old(self).targets(),
            final(self).buffer() == old(self).buffer(),
            final(self).pointer() == old(self).pointer(),
            final(self).clock() == old(self).clock(),
            final(self).wf() == old(self).wf(),
    {
        self.width = width;
        self.height = height;
    }

    /// Records where an integration step has brought particle `i`, and at
    /// what velocity. Nothing else of it changes.
    pub fn place(&mut self, i: usize, position: Point, vx: i32, vy: i32)
        requires
            i < old(self).particles().len(),
        ensures
            final(self).particles() == old(self).particles().update(
                i as int,
                (Particle { position, vx, vy, ..old(self).particles()[i as int] }),
            ),
            final(self).targets() == old(self).targets(),
            final(self).buffer() == old(self).buffer(),
            final(self).extent() == old(self).extent(),
            final(self).pointer() == old(self).pointer(),
            final(self).clock() == old(self).clock(),
            old(self).wf() ==> final(self).wf(),
    {
        let mut p: Particle = self.particles[i];
        p.position = position;
        p.vx = vx;
        p.vy = vy;
        self.particles.set(i, p);
    }

    /// The phase of the breathing wave at each particle in the coming step,
    /// in thousandths of a radian.
    pub fn phases(&self) -> (at: Vec<i128>)
        requires
            self.clock() + TIME_STEP <= u64::MAX,
        ensures
            at@.len() == self.particles().len(),
            forall|i: int|
                0 <= i < at@.len() ==> #[trigger] at@[i] == phase_of(
                    self.clock() + TIME_STEP,
                    self.particles()[i],
                ),
    {
        let mut at: Vec<i128> = Vec::new();
        let n: usize = self.particles.len();
        let mut i: usize = 0;
        while i < n
            invariant
                i <= n,
                n == self.particles@.len(),
                self.time + TIME_STEP <= u64::MAX,
                at@.len() == i,
                forall|x: int|
                    0 <= x < i ==> #[trigger] at@[x] == phase_of(
                        self.time + TIME_STEP,
                        self.particles@[x],
                    ),
            decreases n - i,
        {
            at.push(phase(self.time + TIME_STEP, &self.particles[i]));
            i += 1;
        }
        at
    }

    /// Advances the swarm by one step and the clock by `TIME_STEP`. `waves`
    /// gives, for each particle, the sine of its phase, in thousandths.
    /// Afterwards no particle is faster than its top speed.
    pub fn step(&mut self, waves: &[i32])
        requires
            old(self).wf(),
            waves@.len() == old(self).particles().len(),
            old(self).clock() + TIME_STEP <= u64::MAX,
        ensures
            final(self).wf(),
            final(self).clock() == old(self).clock() + TIME_STEP,
            final(self).particles().len() == old(self).particles().len(),
            forall|i: int|
                0 <= i < old(self).particles().len() ==> #[trigger] final(self).particles()[i]
                    == stepped(
                    old(self).particles()[i],
                    old(self).field(),
                    breathing_of(waves@[i] as int),
                ),
            forall|i: int|
                0 <= i < old(self).particles().len() ==> {
                    let q = #[trigger] final(self).particles()[i];
                    q.vx * q.vx + q.vy * q.vy <= q.max_speed * q.max_speed
                },
            final(self).targets() == old(self).targets(),
            final(self).buffer() == old(self).buffer(),
            final(self).extent() == old(self).extent(),
            final(self).pointer() == old(self).pointer(),
    {
        self.time += TIME_STEP;
        let field = Field {
            width: self.width,
            height: self.height,
            mouse_x: self.mouse_x,
            mouse_y: self.mouse_y,
            mouse_active: self.mouse_active,
        };
        let n: usize = self.particles.len();
        let mut i: usize = 0;
        while i < n
            invariant
                i <= n,
                n == old(self).particles@.len(),
                n == waves@.len(),
                self.particles@.len() == n,
                field == old(self).field(),
                forall|x: int|
                    0 <= x < i ==> #[trigger] self.particles@[x] == stepped(
                        old(self).particles@[x],
                        field,
                        breathing_of(waves@[x] as int),
                    ),
                forall|x: int| i <= x < n ==> #[trigger] self.particles@[x] == old(self).particles@[x],
                forall|x: int| 0 <= x < n ==> (#[trigger] self.particles@[x]).wf(),
                forall|x: int|
                    0 <= x < i ==> {
                        let q = #[trigger] self.particles@[x];
                        q.vx * q.vx + q.vy * q.vy <= q.max_speed * q.max_speed
                    },
                self.text_coords@ == old(self).text_coords@,
                self.render_buffer@ == old(self).render_buffer@,
                self.width == old(self).width,
                self.height == old(self).height,
                self.mouse_x == old(self).mouse_x,
                self.mouse_y == old(self).mouse_y,
                self.mouse_active == old(self).mouse_active,
                self.time == old(self).time + TIME_STEP,
            decreases n - i,
        {
            let moved = step_particle(self.particles[i], field, breathing(waves[i]));
            self.particles.set(i, moved);
            i += 1;
        }
    }

    /// The time simulated so far, in thousandths.
    pub fn time(&self) -> (t: u64)
        ensures
            t == self.clock(),
    {
        self.time
    }

    /// The number of particles.
    pub fn particle_count(&self) -> (n: usize)
        ensures
            n == self.particles().len(),
    {
        self.particles.len()
    }

    /// Particle `i`.
    pub fn particle(&self, i: usize) -> (p: Particle)
        requires
            i < self.particles().len(),
        ensures
            p == self.particles()[i as int],
    {
        self.particles[i]
    }

    /// The current targets.
    pub fn text_coords(&self) -> (t: &Vec<Point>)
        ensures
            t@ == self.targets(),
    {
        &self.text_coords
    }

    /// Width of the field.
    pub fn width(&self) -> (w: i32)
        ensures
            w == self.extent().0,
    {
        self.width
    }

    /// Height of the field.
    pub fn height(&self) -> (h: i32)
        ensures
            h == self.extent().1,
    {
        self.height
    }

    /// The pointer's position, and whether it acts on the swarm.
    pub fn mouse(&self) -> (m: (i32, i32, bool))
        ensures
            m == self.pointer(),
    {
        (self.mouse_x, self.mouse_y, self.mouse_active)
    }

    /// Fills the render buffer from the particles as they are now.
    pub fn update_render_buffer(&mut self)
        requires
            old(self).wf(),
        ensures
            final(self).wf(),
            final(self).buffer() == rendered(old(self).particles()),
            final(self).particles() == old(self).particles(),
            final(self).targets() == old(self).targets(),
            final(self).extent() == old(self).extent(),
            final(self).pointer() == old(self).pointer(),
            final(self).clock() == old(self).clock(),
    {
        let n: usize = self.particles.len();
        let room: usize = self.render_buffer.len();
        let mut i: usize = 0;
        while i < n
            invariant
                i <= n,
                n == self.particles@.len(),
                room == 4 * n,
                self.render_buffer@.len() == 4 * n,
                self.particles@ == old(self).particles@,
                self.text_coords@ == old(self).text_coords@,
                self.width == old(self).width,
                self.height == old(self).height,
                self.mouse_x == old(self).mouse_x,
                self.mouse_y == old(self).mouse_y,
                self.mouse_active == old(self).mouse_active,
                self.time == old(self).time,
                forall|k: int|
                    0 <= k < 4 * i ==> #[trigger] self.render_buffer@[k] == render_value(
                        self.particles@,
                        k,
                    ),
            decreases n - i,
        {
            let p: Particle = self.particles[i];
            let at: usize = i * 4;
            let flag: i32 = if p.is_forming {
                1000
            } else {
                0
            };
            self.render_buffer.set(at, p.position.x);
            self.render_buffer.set(at + 1, p.position.y);
            self.render_buffer.set(at + 2, p.size);
            self.render_buffer.set(at + 3, flag);
            i += 1;
        }
        assert(self.render_buffer@ =~= rendered(self.particles@));
    }

    /// The render buffer as it was last filled.
    pub fn render_buffer(&self) -> (b: &Vec<i32>)
        ensures
            b@ == self.buffer(),
    {
        &self.render_buffer
    }

    /// The length of the render buffer.
    pub fn render_buffer_len(&self) -> (n: usize)
        ensures
            n == self.buffer().len(),
    {
        self.render_buffer.len()
    }

    /// The counts of the substrate: its particles, the forming and the
    /// floating ones among them, and its targets.
    pub open spec fn counts(&self) -> Stats {
        let n = self.particles().len();
        let forming = forming_count(self.particles(), n as int);
        Stats {
            particles: n as usize,
            forming: forming as usize,
            floating: (n - forming) as usize,
            text_coords: self.targets().len() as usize,
        }
    }

    /// The summary of the substrate as one line of text.
    pub fn get_stats(&self) -> (text: String)
        ensures
            text@ == stats_text(self.counts()),
    {
        render_stats(self.stats())
    }

    /// Counts the particles, the forming and the floating ones, and the targets.
    pub fn stats(&self) -> (s: Stats)
        ensures
            s == self.counts(),
            s.particles == self.particles().len(),
            s.forming == forming_count(self.particles(), self.particles().len() as int),
            s.floating == s.particles - s.forming,
            s.text_coords == self.targets().len(),
    {
        let n: usize = self.particles.len();
        let mut forming: usize = 0;
        let mut i: usize = 0;
        while i < n
            invariant
                i <= n,
                n == self.particles@.len(),
                forming <= i,
                forming == forming_count(self.particles@, i as int),
            decreases n - i,
        {
            if self.particles[i].is_forming {
                forming += 1;
            }
            i += 1;
        }
        Stats { particles: n, forming, floating: n - forming, text_coords: self.text_coords.len() }
    }
}

/// Assigning the same targets a second time, with no particle moved in
/// between, changes nothing.
pub proof fn lemma_reassign_idempotent(particles: Seq<Particle>, targets: Seq<Point>)
    requires
        targets.len() <= usize::MAX,
    ensures
        reassigned(reassigned(particles, targets), targets) == reassigned(particles, targets),
{
    let once = reassigned(particles, targets);
    assert(positions(once) =~= positions(particles));
    assert(reassigned(once, targets) =~= once);
}

/// After an assignment a particle is forming exactly when its index is below
/// the number of targets, so as many particles are forming as there are
/// targets, or all of them where the targets are more.
pub proof fn lemma_reassigned_forming(particles: Seq<Particle>, targets: Seq<Point>)
    requires
        targets.len() <= usize::MAX,
    ensures
        reassigned(particles, targets).len() == particles.len(),
        forall|i: int|
            0 <= i < particles.len() ==> ((#[trigger] reassigned(particles, targets)[i]).is_forming
                <==> i < targets.len()),
        forall|i: int|
            0 <= i < particles.len() && i < targets.len() ==> exists|j: int|
                0 <= j < targets.len() && (#[trigger] reassigned(particles, targets)[i]).target
                    == targets[j],
        forming_count(reassigned(particles, targets), particles.len() as int) == if particles.len()
            < targets.len() {
            particles.len()
        } else {
            targets.len()
        },
{
    lemma_assignment_shape(positions(particles), targets);
    let slots = assignment(positions(particles), targets);
    assert forall|i: int| 0 <= i < particles.len() && i < targets.len() implies exists|j: int|
        0 <= j < targets.len() && (#[trigger] reassigned(particles, targets)[i]).target
            == targets[j] by {
        assert(slots[i].is_some());
        let j = slots[i].unwrap() as int;
        assert(reassigned(particles, targets)[i].target == targets[j]);
    }
    lemma_forming_prefix(
        reassigned(particles, targets),
        particles.len() as int,
        targets.len() as int,
    );
}

proof fn lemma_forming_prefix(particles: Seq<Particle>, n: int, m: int)
    requires
        0 <= n <= particles.len(),
        0 <= m,
        forall|x: int| 0 <= x < particles.len() ==> ((#[trigger] particles[x]).is_forming <==> x < m),
    ensures
        forming_count(particles, n) == (if n < m {
            n
        } else {
            m
        }),
    decreases n,
{
    if n > 0 {
        lemma_forming_prefix(particles, n - 1, m);
    }
}

} // verus!
