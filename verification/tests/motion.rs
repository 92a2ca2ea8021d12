use swarm_core::geometry::Point;
use swarm_core::motion::{breathing, div_toward_zero, isqrt, phase, repel, step_particle, Field};
use swarm_core::population::{Draws, Particle};
use swarm_core::SwarmSubstrate;

// A scout with friction 940, ease 150, top speed 6000 and attraction 1500.
fn scout(x: i32, y: i32, vx: i32, vy: i32) -> Particle {
    Particle::from_draws(Draws { kind: 0, size: 500, friction: 500, ease: 500, x, y, vx, vy })
}

fn field(mouse_x: i32, mouse_y: i32, mouse_active: bool) -> Field {
    Field { width: 100_000, height: 100_000, mouse_x, mouse_y, mouse_active }
}

#[test]
fn isqrt_rounds_down() {
    assert_eq!(isqrt(0), 0);
    assert_eq!(isqrt(1), 1);
    assert_eq!(isqrt(3), 1);
    assert_eq!(isqrt(4), 2);
    assert_eq!(isqrt(24), 4);
    assert_eq!(isqrt(25), 5);
    assert_eq!(isqrt(1_000_000_000_000), 1_000_000);
    assert_eq!(isqrt(999_999_999_999), 999_999);
    assert_eq!(isqrt(u128::MAX), u64::MAX);
}

#[test]
fn div_toward_zero_drops_the_fraction() {
    assert_eq!(div_toward_zero(7, 2), 3);
    assert_eq!(div_toward_zero(-7, 2), -3);
    assert_eq!(div_toward_zero(0, 5), 0);
    assert_eq!(div_toward_zero(-1, 1_000), 0);
    assert_eq!(div_toward_zero(-2_000, 1_000), -2);
}

#[test]
fn breathing_is_twice_the_wave_within_its_bounds() {
    assert_eq!(breathing(0), 0);
    assert_eq!(breathing(3), 6);
    assert_eq!(breathing(-1_000), -2_000);
    assert_eq!(breathing(1_000), 2_000);
    assert_eq!(breathing(1_500), 2_000);
    assert_eq!(breathing(-1_001), -2_000);
    assert_eq!(breathing(i32::MIN), -2_000);
}

#[test]
fn phase_adds_a_twentieth_of_the_height() {
    assert_eq!(phase(20, &scout(0, 50_000, 0, 0)), 2_520);
    assert_eq!(phase(20, &scout(0, -50, 0, 0)), 18);
    assert_eq!(phase(u64::MAX, &scout(0, 0, 0, 0)), u64::MAX as i128);
}

#[test]
fn pointer_next_to_a_particle_pushes_it_away() {
    let mut s = SwarmSubstrate::from_particles(100_000, 100_000, vec![scout(50_001, 50_000, 0, 0)]);
    s.set_mouse(50_000, 50_000, true);
    s.step(&[0]);
    let p = s.particle(0);
    assert_eq!((p.vx, p.vy), (2_349, 0));
    assert_eq!(p.position, Point { x: 52_350, y: 50_000 });
    assert_eq!(s.time(), 20);
}

#[test]
fn repel_fades_with_distance_and_ends_at_the_radius() {
    let p = scout(0, 0, 0, 0);
    assert_eq!(repel(&p, &field(1, 0, true)), (-4_999, 0));
    assert_eq!(repel(&p, &field(-75_000, 0, true)), (2_500, 0));
    assert_eq!(repel(&p, &field(0, 30_000, true)), (0, -4_000));
    assert_eq!(repel(&p, &field(30_000, 40_000, true)), (-2_000, -2_666));
    assert_eq!(repel(&p, &field(149_999, 0, true)), (0, 0));
    assert_eq!(repel(&p, &field(150_000, 0, true)), (0, 0));
    assert_eq!(repel(&p, &field(0, 0, true)), (0, 0));
    assert_eq!(repel(&p, &field(1, 0, false)), (0, 0));
}

#[test]
fn a_floating_particle_only_loses_speed_to_friction() {
    let moved = step_particle(scout(10_000, 10_000, 250, -250), field(0, 0, false), 2_000);
    assert_eq!((moved.vx, moved.vy), (235, -235));
    assert_eq!(moved.position, Point { x: 10_235, y: 9_765 });
    assert_eq!(moved, Particle { position: moved.position, vx: 235, vy: -235, ..scout(10_000, 10_000, 0, 0) });
}

#[test]
fn a_forming_particle_is_drawn_to_its_breathing_target() {
    let mut s = SwarmSubstrate::from_particles(100_000, 100_000, vec![scout(0, 0, 0, 0)]);
    s.set_text_coords(&[10_000, 0]);
    let mut t = SwarmSubstrate::from_particles(100_000, 100_000, vec![scout(0, 0, 0, 0)]);
    t.set_text_coords(&[10_000, 0]);
    s.step(&[0]);
    assert_eq!((s.particle(0).vx, s.particle(0).vy), (211, 0));
    assert_eq!(s.particle(0).position, Point { x: 211, y: 0 });
    t.step(&[500]);
    assert_eq!((t.particle(0).vx, t.particle(0).vy), (232, 20));
    assert_eq!(t.particle(0).position, Point { x: 232, y: 20 });
    assert!(t.particle(0).is_forming);
    assert_eq!(t.particle(0).target, Point { x: 10_000, y: 0 });
}

#[test]
fn a_forming_particle_feels_a_tenth_of_the_push() {
    let mut p = scout(0, 0, 0, 0);
    p.is_forming = true;
    p.target = Point { x: 0, y: 0 };
    let moved = step_particle(p, field(-75_000, 0, true), 0);
    assert_eq!((moved.vx, moved.vy), (235, 0));
}

#[test]
fn speed_is_held_to_the_top_speed() {
    let moved = step_particle(scout(50_000, 50_000, 100_000, 0), field(0, 0, false), 0);
    assert_eq!((moved.vx, moved.vy), (5_999, 0));
    let moved = step_particle(scout(50_000, 50_000, -300_000, 400_000), field(0, 0, false), 0);
    assert_eq!((moved.vx, moved.vy), (-3_599, 4_799));
    let v = (moved.vx as i64, moved.vy as i64);
    assert!(v.0 * v.0 + v.1 * v.1 <= 6_000 * 6_000);
    let moved = step_particle(scout(0, 0, i32::MAX, i32::MIN), field(0, 0, false), 0);
    let v = (moved.vx as i64, moved.vy as i64);
    assert!(v.0 * v.0 + v.1 * v.1 <= 6_000 * 6_000);
    assert!(v.0 > 4_000 && v.1 < -4_000);
}

#[test]
fn outside_the_field_the_velocity_turns_round_each_step() {
    let moved = step_particle(scout(-5, 200_000, -1_000, 1_000), field(0, 0, false), 0);
    assert_eq!((moved.vx, moved.vy), (940, -940));
    assert_eq!(moved.position, Point { x: 935, y: 199_060 });
    let again = step_particle(moved, field(0, 0, false), 0);
    assert_eq!((again.vx, again.vy), (883, 883));
}

#[test]
fn a_particle_outside_comes_back_over_several_steps() {
    let mut p = scout(-500, 50_000, -2_000, 0);
    p = step_particle(p, field(0, 0, false), 0);
    assert_eq!((p.position.x, p.vx), (1_380, 1_880));
    for _ in 0..20 {
        p = step_particle(p, field(0, 0, false), 0);
        assert!(0 <= p.position.x && p.position.x <= 100_000);
    }
}

#[test]
fn friction_never_speeds_a_floating_particle_up() {
    let mut p = scout(50_000, 50_000, 800, -600);
    for _ in 0..30 {
        let next = step_particle(p, field(0, 0, false), 0);
        assert!(next.vx.abs() <= p.vx.abs());
        assert!(next.vy.abs() <= p.vy.abs());
        if next.position.x < 0 || next.position.x > 100_000 {
            break;
        }
        p = next;
    }
    assert!(p.vx.abs() < 800);
}

#[test]
fn positions_stop_at_the_last_coordinate() {
    let f = Field { width: i32::MAX, height: i32::MAX, mouse_x: 0, mouse_y: 0, mouse_active: false };
    let moved = step_particle(scout(i32::MAX - 10, 5, 1_000, 0), f, 0);
    assert_eq!(moved.vx, 940);
    assert_eq!(moved.position, Point { x: i32::MAX, y: 5 });
}

#[test]
fn step_moves_every_particle_and_advances_the_clock() {
    let particles = vec![scout(10_000, 10_000, 250, -250), scout(20_000, 0, 0, 1_000)];
    let mut s = SwarmSubstrate::from_particles(100_000, 100_000, particles.clone());
    assert_eq!(s.phases(), vec![520, 20]);
    s.step(&[0, 0]);
    assert_eq!(s.time(), 20);
    for i in 0..2 {
        assert_eq!(s.particle(i), step_particle(particles[i], field(0, 0, false), 0));
    }
    assert_eq!(s.phases(), vec![40 + 488, 40 + 47]);
    s.step(&[0, 0]);
    assert_eq!(s.time(), 40);
    s.update_render_buffer();
    assert_eq!(s.render_buffer_len(), 8);
    for i in 0..2 {
        let p = s.particle(i);
        assert_eq!(s.render_buffer()[4 * i..4 * i + 4], [p.position.x, p.position.y, p.size, 0]);
    }
}
