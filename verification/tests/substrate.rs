use swarm_core::geometry::Point;
use swarm_core::population::{Draws, Particle};
use swarm_core::substrate::Stats;
use swarm_core::{ParticleType, SwarmSubstrate};

fn draws(kind: i32, x: i32, y: i32) -> Draws {
    Draws { kind, size: 500, friction: 500, ease: 500, x, y, vx: 250, vy: -250 }
}

fn swarm(places: &[(i32, i32)]) -> SwarmSubstrate {
    let particles: Vec<Particle> =
        places.iter().map(|&(x, y)| Particle::from_draws(draws(0, x, y))).collect();
    SwarmSubstrate::from_particles(100_000, 100_000, particles)
}

#[test]
fn classify_follows_the_shares() {
    assert_eq!(ParticleType::classify(0), ParticleType::Scout);
    assert_eq!(ParticleType::classify(599), ParticleType::Scout);
    assert_eq!(ParticleType::classify(600), ParticleType::Anchor);
    assert_eq!(ParticleType::classify(849), ParticleType::Anchor);
    assert_eq!(ParticleType::classify(850), ParticleType::Drifter);
    assert_eq!(ParticleType::classify(999), ParticleType::Drifter);
}

#[test]
fn from_draws_makes_a_scout() {
    let p = Particle::from_draws(draws(0, 12_000, 34_000));
    assert_eq!(
        p,
        Particle {
            position: Point { x: 12_000, y: 34_000 },
            vx: 250,
            vy: -250,
            target: Point { x: 12_000, y: 34_000 },
            is_forming: false,
            size: 1_000,
            friction: 940,
            ease: 150,
            max_speed: 6_000,
            attraction_strength: 1_500,
            particle_type: ParticleType::Scout,
        }
    );
}

#[test]
fn from_draws_makes_an_anchor() {
    let p = Particle::from_draws(Draws {
        kind: 700,
        size: 250,
        friction: 999,
        ease: 0,
        x: 0,
        y: 0,
        vx: -1_000,
        vy: 999,
    });
    assert_eq!(p.particle_type, ParticleType::Anchor);
    assert_eq!((p.max_speed, p.attraction_strength), (4_000, 1_800));
    assert_eq!((p.size, p.friction, p.ease), (1_375, 969, 80));
    assert_eq!((p.vx, p.vy), (-1_000, 999));
}

#[test]
fn from_draws_makes_a_drifter() {
    let p = Particle::from_draws(Draws {
        kind: 850,
        size: 999,
        friction: 0,
        ease: 999,
        x: 5,
        y: 6,
        vx: 0,
        vy: 0,
    });
    assert_eq!(p.particle_type, ParticleType::Drifter);
    assert_eq!((p.max_speed, p.attraction_strength), (5_000, 800));
    assert_eq!((p.size, p.friction, p.ease), (3_198, 920, 149));
}

#[test]
fn new_draws_every_particle_within_its_ranges() {
    let s = SwarmSubstrate::new(800_000, 600_000, 200);
    assert_eq!(s.particle_count(), 200);
    assert_eq!(s.render_buffer_len(), 800);
    assert!(s.render_buffer().iter().all(|&v| v == 0));
    assert_eq!(s.text_coords().len(), 0);
    assert_eq!((s.width(), s.height()), (800_000, 600_000));
    assert_eq!(s.mouse(), (0, 0, false));
    for i in 0..200 {
        let p = s.particle(i);
        assert!(!p.is_forming);
        assert_eq!(p.target, p.position);
        assert!(0 <= p.position.x && p.position.x < 800_000);
        assert!(0 <= p.position.y && p.position.y < 600_000);
        assert!(-1_000 <= p.vx && p.vx < 1_000);
        assert!(-1_000 <= p.vy && p.vy < 1_000);
        assert!(0 < p.friction && p.friction <= 1_000);
        assert!(p.ease > 0 && p.size >= 0);
        let (speed, pull, size, friction, ease) = match p.particle_type {
            ParticleType::Scout => (6_000, 1_500, 500..1_500, 920..960, 120..180),
            ParticleType::Anchor => (4_000, 1_800, 1_000..2_500, 940..970, 80..120),
            ParticleType::Drifter => (5_000, 800, 1_200..3_200, 920..970, 100..150),
        };
        assert_eq!((p.max_speed, p.attraction_strength), (speed, pull));
        assert!(size.contains(&p.size));
        assert!(friction.contains(&p.friction));
        assert!(ease.contains(&p.ease));
    }
    let first = s.particle(0);
    assert!((1..200).any(|i| s.particle(i).position != first.position));
    assert!((1..200).any(|i| s.particle(i).particle_type != first.particle_type));
    assert!((1..200).any(|i| s.particle(i).vx != first.vx));
}

#[test]
fn new_keeps_positions_inside_a_narrow_or_empty_field() {
    let s = SwarmSubstrate::new(1, 0, 50);
    for i in 0..50 {
        assert_eq!(s.particle(i).position, Point { x: 0, y: 0 });
    }
    let s = SwarmSubstrate::new(-3, 2, 50);
    for i in 0..50 {
        let p = s.particle(i).position;
        assert!(-3 < p.x && p.x <= 0);
        assert!(0 <= p.y && p.y < 2);
    }
}

#[test]
fn new_with_no_particles_is_empty() {
    let mut s = SwarmSubstrate::new(100_000, 100_000, 0);
    assert_eq!(s.particle_count(), 0);
    assert_eq!(s.render_buffer_len(), 0);
    s.set_text_coords(&[1, 2, 3, 4]);
    s.update_render_buffer();
    assert_eq!(s.render_buffer_len(), 0);
    assert_eq!(s.stats(), Stats { particles: 0, forming: 0, floating: 0, text_coords: 2 });
}

#[test]
fn one_target_for_three_particles() {
    let mut s = SwarmSubstrate::new(100_000, 100_000, 3);
    s.set_text_coords(&[10_000, 10_000]);
    let forming: Vec<usize> = (0..3).filter(|&i| s.particle(i).is_forming).collect();
    assert_eq!(forming, vec![0]);
    assert_eq!(s.particle(0).target, Point { x: 10_000, y: 10_000 });
    assert!(!s.particle(1).is_forming);
    assert!(!s.particle(2).is_forming);
    assert_eq!(s.stats(), Stats { particles: 3, forming: 1, floating: 2, text_coords: 1 });
}

#[test]
fn set_text_coords_assigns_targets_and_keeps_the_rest() {
    let mut s = swarm(&[(0, 0), (400_000, 0), (-1_000_000, 0), (7, 7)]);
    let before: Vec<Particle> = (0..4).map(|i| s.particle(i)).collect();
    s.set_text_coords(&[90_000, 0, 10_000, 0, 500_000, 0]);
    assert_eq!(
        s.text_coords(),
        &vec![Point { x: 90_000, y: 0 }, Point { x: 10_000, y: 0 }, Point { x: 500_000, y: 0 }]
    );
    let expected = [
        (true, Point { x: 10_000, y: 0 }),
        (true, Point { x: 500_000, y: 0 }),
        (true, Point { x: 90_000, y: 0 }),
        (false, Point { x: 7, y: 7 }),
    ];
    for i in 0..4 {
        let p = s.particle(i);
        assert_eq!((p.is_forming, p.target), expected[i]);
        assert_eq!(p, Particle { is_forming: p.is_forming, target: p.target, ..before[i] });
    }
}

#[test]
fn an_unpaired_last_coordinate_is_dropped() {
    let mut s = swarm(&[(0, 0), (1, 1)]);
    s.set_text_coords(&[5, 6, 7]);
    assert_eq!(s.text_coords(), &vec![Point { x: 5, y: 6 }]);
    assert!(s.particle(0).is_forming);
    assert!(!s.particle(1).is_forming);
    s.set_text_coords(&[9]);
    assert_eq!(s.text_coords().len(), 0);
    assert!(!s.particle(0).is_forming);
}

#[test]
fn empty_targets_clear_every_forming_flag() {
    let mut s = swarm(&[(0, 0), (1, 1), (2, 2)]);
    s.set_text_coords(&[0, 0, 10, 10, 20, 20]);
    assert!((0..3).all(|i| s.particle(i).is_forming));
    let targets: Vec<Point> = (0..3).map(|i| s.particle(i).target).collect();
    s.set_text_coords(&[]);
    for i in 0..3 {
        assert!(!s.particle(i).is_forming);
        assert_eq!(s.particle(i).target, targets[i]);
    }
    assert_eq!(s.stats(), Stats { particles: 3, forming: 0, floating: 3, text_coords: 0 });
}

#[test]
fn the_same_coordinates_twice_change_nothing() {
    let coords = [30_000, 0, 0, 30_000, 260_000, 10_000, 15_000, 15_000];
    let mut s = swarm(&[(0, 0), (250_000, 0), (20_000, 20_000), (-900_000, 5), (1, 2)]);
    s.set_text_coords(&coords);
    let once: Vec<Particle> = (0..5).map(|i| s.particle(i)).collect();
    s.set_text_coords(&coords);
    let twice: Vec<Particle> = (0..5).map(|i| s.particle(i)).collect();
    assert_eq!(once, twice);
    assert_eq!(once.iter().filter(|p| p.is_forming).count(), 4);
}

#[test]
fn set_mouse_and_resize_replace_their_state() {
    let mut s = swarm(&[(0, 0)]);
    s.set_mouse(50_000, -20, true);
    assert_eq!(s.mouse(), (50_000, -20, true));
    s.set_mouse(1, 2, false);
    assert_eq!(s.mouse(), (1, 2, false));
    s.resize(640_000, -5);
    assert_eq!((s.width(), s.height()), (640_000, -5));
    assert_eq!(s.particle(0).position, Point { x: 0, y: 0 });
}

#[test]
fn place_moves_one_particle() {
    let mut s = swarm(&[(0, 0), (1, 1)]);
    let before = s.particle(1);
    s.place(1, Point { x: -40, y: 90 }, 3, -4);
    assert_eq!(s.particle(0), Particle::from_draws(draws(0, 0, 0)));
    assert_eq!(
        s.particle(1),
        Particle { position: Point { x: -40, y: 90 }, vx: 3, vy: -4, ..before }
    );
}

#[test]
fn render_buffer_mirrors_the_particles() {
    let mut s = swarm(&[(1_000, 2_000), (3_000, 4_000), (5_000, 6_000)]);
    assert_eq!(s.render_buffer(), &vec![0; 12]);
    s.set_text_coords(&[0, 0, 9, 9]);
    s.place(2, Point { x: -7, y: 8 }, 0, 0);
    s.update_render_buffer();
    assert_eq!(s.render_buffer_len(), 4 * s.particle_count());
    assert_eq!(
        s.render_buffer(),
        &vec![1_000, 2_000, 1_000, 1_000, 3_000, 4_000, 1_000, 1_000, -7, 8, 1_000, 0]
    );
    for i in 0..3 {
        let p = s.particle(i);
        let flag = if p.is_forming { 1_000 } else { 0 };
        assert_eq!(s.render_buffer()[4 * i..4 * i + 4], [p.position.x, p.position.y, p.size, flag]);
    }
}

#[test]
fn stats_count_forming_and_floating() {
    let mut s = swarm(&[(0, 0), (1, 1), (2, 2), (3, 3), (4, 4)]);
    assert_eq!(s.stats(), Stats { particles: 5, forming: 0, floating: 5, text_coords: 0 });
    s.set_text_coords(&[0, 0, 1, 1, 2, 2]);
    assert_eq!(s.stats(), Stats { particles: 5, forming: 3, floating: 2, text_coords: 3 });
    s.set_text_coords(&[0, 0, 1, 1, 2, 2, 3, 3, 4, 4, 5, 5, 6, 6]);
    assert_eq!(s.stats(), Stats { particles: 5, forming: 5, floating: 0, text_coords: 7 });
}

#[test]
fn get_stats_writes_the_counts_in_decimal() {
    let mut s = swarm(&[(0, 0), (1, 1), (2, 2)]);
    assert_eq!(s.get_stats(), "particles: 3, forming: 0, floating: 3, text_coords: 0");
    s.set_text_coords(&[10_000, 10_000]);
    assert_eq!(s.get_stats(), "particles: 3, forming: 1, floating: 2, text_coords: 1");
    let coords: Vec<i32> = (0..2_468).collect();
    let mut big = SwarmSubstrate::new(100_000, 100_000, 1_050);
    big.set_text_coords(&coords);
    assert_eq!(big.get_stats(), "particles: 1050, forming: 1050, floating: 0, text_coords: 1234");
}
