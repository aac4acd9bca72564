use rps_sim::agent::Agent;
use rps_sim::geom::{dist_sq_val, isqrt, step_toward, Vec2};
use rps_sim::index::SpatialIndex;
use rps_sim::kind::{HasSprite, Mock, Paper, Rock, Scissors};
use rps_sim::resources::{DebugState, GameControl, GameState};
use rps_sim::sim::{SimConfig, Simulation};
use rps_sim::utils::{generate_regions, on_borders, on_generic_borders};
use rand::SeedableRng;

fn test_config() -> SimConfig {
    SimConfig {
        half_width: 1000,
        half_height: 500,
        gap: 5,
        sprite_size: 5,
        base_speed: 40,
        flee_gain: 5,
        vision_lo: 50,
        vision_hi: 150,
    }
}

fn sim_with_agents(agents: Vec<(Mock, i64, i64, i64)>) -> Simulation {
    let mut sim = Simulation::new(test_config());
    for (kind, x, y, vision_extra) in agents {
        sim.spawn(kind, Vec2 { x, y }, vision_extra);
    }
    sim
}

#[test]
fn prey_cycle_closes() {
    for k in [Mock::Rock, Mock::Paper, Mock::Scissors] {
        assert_eq!(k.prey().prey().prey(), k);
        assert_ne!(k.prey(), k);
        assert_eq!(k.predator().prey(), k);
        assert_eq!(k.prey().predator(), k);
    }
}

#[test]
fn prey_predator_table() {
    assert_eq!(Mock::Rock.prey(), Mock::Scissors);
    assert_eq!(Mock::Paper.prey(), Mock::Rock);
    assert_eq!(Mock::Scissors.prey(), Mock::Paper);
    assert_eq!(Mock::Rock.predator(), Mock::Paper);
    assert_eq!(Mock::Paper.predator(), Mock::Scissors);
    assert_eq!(Mock::Scissors.predator(), Mock::Rock);
}

#[test]
fn conversion_is_idempotent() {
    let mut a = Agent::new(Mock::Rock, Vec2 { x: 3, y: 4 }, 10, 2);
    let before = a;
    a.convert_to(Mock::Rock);
    assert_eq!(a, before);
    a.convert_to(Mock::Paper);
    assert_eq!(a.kind, Mock::Paper);
    assert_eq!(a.pos, before.pos);
    assert_eq!(a.vel, before.vel);
    assert_eq!(a.vision, before.vision);
}

#[test]
fn nearest_neighbor_picks_closer_point() {
    let idx = SpatialIndex { entries: vec![(0, 0, 1), (10, 0, 2)] };
    let near_origin = idx.query_nearest(Vec2 { x: 1, y: 0 }).unwrap();
    assert_eq!(near_origin.1, 1);
    let near_ten = idx.query_nearest(Vec2 { x: 9, y: 0 }).unwrap();
    assert_eq!(near_ten.1, 2);
    let empty = SpatialIndex::new();
    assert!(empty.query_nearest(Vec2 { x: 0, y: 0 }).is_none());
}

#[test]
fn query_within_filters_by_radius() {
    let idx = SpatialIndex { entries: vec![(0, 0, 0), (10, 0, 1), (100, 0, 2)] };
    let hits = idx.query_within(Vec2 { x: 0, y: 0 }, 20);
    assert_eq!(hits, vec![(0, 0, 0), (10, 0, 1)]);
}

#[test]
fn resolver_converts_prey_in_contact() {
    // Rock at the origin, Scissors half a contact-threshold away: with
    // sprite_size 5 the inner-contact threshold is 10, and the scissors
    // agent sits at distance 5.
    let mut sim = sim_with_agents(vec![(Mock::Rock, 0, 0, 50), (Mock::Scissors, 5, 0, 50)]);
    sim.resolve_collisions();
    assert_eq!(sim.agents[1].kind, Mock::Rock);
    assert_eq!(sim.agents[1].pos, Vec2 { x: 5, y: 0 });
    assert_eq!(sim.agents[0].kind, Mock::Rock);
}

#[test]
fn resolver_ignores_distant_prey() {
    let mut sim = sim_with_agents(vec![(Mock::Rock, 0, 0, 50), (Mock::Scissors, 500, 0, 50)]);
    sim.resolve_collisions();
    assert_eq!(sim.agents[1].kind, Mock::Scissors);
}

#[test]
fn paper_flees_scissors() {
    // Paper at the origin with a large vision radius, its predator at
    // (10, 0): the flight displacement points in the negative x direction.
    let mut sim = sim_with_agents(vec![(Mock::Paper, 0, 0, 50), (Mock::Scissors, 10, 0, 50)]);
    let pred_idx = sim.rebuild_index(Mock::Scissors);
    sim.handle_enemies(Mock::Paper, &pred_idx);
    assert!(sim.agents[0].pos.x < 0);
    assert_eq!(sim.agents[0].pos.y, 0);
    // flee step is base_speed * flee_gain = 200, straight along -x
    assert_eq!(sim.agents[0].pos.x, -200);
}

#[test]
fn pursuit_moves_toward_prey() {
    let mut sim = sim_with_agents(vec![(Mock::Rock, 0, 0, 50), (Mock::Scissors, 100, 0, 50)]);
    let prey_idx = sim.rebuild_index(Mock::Scissors);
    // step is base_speed * dt / 1000 = 40 * 100 / 1000 = 4, straight along +x
    sim.handle_targets(Mock::Rock, &prey_idx, 100);
    assert_eq!(sim.agents[0].pos, Vec2 { x: 4, y: 0 });
    // the prey itself does not move
    assert_eq!(sim.agents[1].pos, Vec2 { x: 100, y: 0 });
    // a full TICK_UNIT covers the whole base_speed: distance 96, step 40
    sim.handle_targets(Mock::Rock, &prey_idx, 1000);
    assert_eq!(sim.agents[0].pos, Vec2 { x: 44, y: 0 });
}

#[test]
fn pursuit_never_stalls_on_diagonals() {
    // Prey at (30, 40), distance 50, with the smallest resolvable step of
    // 2 fixed-point units: truncation leaves both components nonzero here,
    // and the movement guarantee says at least one always survives.
    let mut sim = sim_with_agents(vec![(Mock::Rock, 0, 0, 50), (Mock::Scissors, 30, 40, 50)]);
    let prey_idx = sim.rebuild_index(Mock::Scissors);
    sim.handle_targets(Mock::Rock, &prey_idx, 50);
    assert_eq!(sim.agents[0].pos, Vec2 { x: 1, y: 1 });
}

#[test]
fn boundaries_clamp_and_point_inward() {
    let mut sim = sim_with_agents(vec![(Mock::Rock, 1000, 500, 50)]);
    sim.agents[0].vel = Vec2 { x: 7, y: -3 };
    sim.check_boundaries();
    assert_eq!(sim.agents[0].pos, Vec2 { x: 995, y: 495 });
    assert_eq!(sim.agents[0].vel, Vec2 { x: -7, y: -3 });
    let mut sim2 = sim_with_agents(vec![(Mock::Paper, -1000, -500, 50)]);
    sim2.agents[0].vel = Vec2 { x: -2, y: -9 };
    sim2.check_boundaries();
    assert_eq!(sim2.agents[0].pos, Vec2 { x: -995, y: -495 });
    assert_eq!(sim2.agents[0].vel, Vec2 { x: 2, y: 9 });
}

#[test]
fn tick_keeps_agents_inside_arena() {
    let mut sim = sim_with_agents(vec![
        (Mock::Rock, 990, 490, 100),
        (Mock::Scissors, 995, 495, 100),
        (Mock::Paper, -990, -490, 100),
    ]);
    for _ in 0..5 {
        sim.tick(16);
    }
    for a in sim.agents.iter() {
        assert!(a.pos.x.abs() <= 995);
        assert!(a.pos.y.abs() <= 495);
    }
}

#[test]
fn generate_regions_counts_and_bounds() {
    let mut rng = rand::rngs::StdRng::seed_from_u64(7);
    let regions = generate_regions(&mut rng, 1000, 500, 3);
    assert_eq!(regions.len(), 3);
    for &(x, y, r) in regions.iter() {
        assert_eq!(r, 60);
        assert!(x.abs() <= 940);
        assert!(y.abs() <= 440);
    }
}

#[test]
fn spawn_entities_fills_regions_with_cycling_kinds() {
    let mut rng = rand::rngs::StdRng::seed_from_u64(1);
    let mut sim = Simulation::new(test_config());
    let regions = vec![(0, 0, 60), (200, 100, 60), (-200, -100, 60)];
    sim.spawn_entities(&mut rng, &regions);
    assert_eq!(sim.agents.len(), 30);
    for (i, a) in sim.agents.iter().enumerate() {
        let expected = match (i / 10) % 3 {
            0 => Mock::Rock,
            1 => Mock::Paper,
            _ => Mock::Scissors,
        };
        assert_eq!(a.kind, expected);
        let (rx, ry, rr) = regions[i / 10];
        assert!((a.pos.x - rx).abs() <= rr);
        assert!((a.pos.y - ry).abs() <= rr);
        let dx = a.pos.x - rx;
        let dy = a.pos.y - ry;
        assert!(dx * dx + dy * dy <= rr * rr);
        assert!(a.vision >= 55 && a.vision <= 155);
    }
}

#[test]
fn detect_collisions_lists_contact_pairs() {
    let sim = sim_with_agents(vec![
        (Mock::Rock, 0, 0, 50),
        (Mock::Scissors, 5, 0, 50),
        (Mock::Paper, 500, 0, 50),
    ]);
    let pairs = sim.detect_collisions();
    assert_eq!(pairs.0, vec![(0, 1), (1, 0)]);
}

#[test]
fn isqrt_exact_values() {
    assert_eq!(isqrt(0), 0);
    assert_eq!(isqrt(1), 1);
    assert_eq!(isqrt(3), 1);
    assert_eq!(isqrt(4), 2);
    assert_eq!(isqrt(99), 9);
    assert_eq!(isqrt(100), 10);
    assert_eq!(isqrt(1 << 40), 1 << 20);
}

#[test]
fn dist_and_step_geometry() {
    let a = Vec2 { x: 0, y: 0 };
    let b = Vec2 { x: 3, y: 4 };
    assert_eq!(dist_sq_val(a, b), 25);
    let d = step_toward(a, b, 5);
    assert_eq!(d, Vec2 { x: 3, y: 4 });
    // coincident points give the zero displacement
    assert_eq!(step_toward(a, a, 5), Vec2 { x: 0, y: 0 });
}

#[test]
fn border_predicates() {
    assert!(on_generic_borders(10, 10));
    assert!(on_generic_borders(-11, 10));
    assert!(!on_generic_borders(9, 10));
    assert!(on_borders((10, 0), (10, 20)));
    assert!(on_borders((0, -25), (10, 20)));
    assert!(!on_borders((5, 5), (10, 20)));
}

#[test]
fn sprite_and_sound_names() {
    assert_eq!(Rock.img(), "sprites//rock.png");
    assert_eq!(Paper.img(), "sprites//paper.png");
    assert_eq!(Scissors.img(), "sprites//scissors.png");
    assert_eq!(Rock.sound(), "sounds/rock.ogg");
    assert_eq!(Paper.sound(), "sounds/paper.ogg");
    assert_eq!(Scissors.sound(), "sounds/scissors.ogg");
}

#[test]
fn control_state_machine() {
    let mut control = GameControl::default();
    assert!(control.stop);
    assert!(control.sound);
    assert_eq!(control.control_time(false), GameState::Paused);
    assert_eq!(control.control_time(true), GameState::InGame);
    assert!(!control.stop);
    control.control_sound(true);
    assert!(!control.sound);
    let mut debug = DebugState::default();
    assert!(!debug.points);
    debug.toggle_view_regions(true);
    assert!(debug.points);
    debug.toggle_rock(true);
    assert!(!debug.rocks);
    debug.toggle_paper_radius(true);
    assert!(debug.radius_papers);
    debug.toggle_scissors(false);
    assert!(debug.scissors);
}

#[test]
fn generate_regions_accepts_minimal_arena() {
    let mut rng = rand::rngs::StdRng::seed_from_u64(3);
    let regions = generate_regions(&mut rng, 60, 60, 2);
    assert_eq!(regions.len(), 2);
    for &(x, y, r) in regions.iter() {
        assert_eq!(r, 60);
        assert_eq!(x, 0);
        assert_eq!(y, 0);
    }
}

#[test]
fn tick_runs_every_stage() {
    // A rock far from its prey pursues it by one base_speed step; the
    // scissors agent sees no prey and no predator in vision and stays put.
    // With zero velocities, integration, resolution and containment all
    // leave the positions as steering set them.
    let mut sim = sim_with_agents(vec![(Mock::Rock, 0, 0, 50), (Mock::Scissors, 100, 0, 50)]);
    sim.agents[0].vel = Vec2 { x: 0, y: 0 };
    sim.agents[1].vel = Vec2 { x: 0, y: 0 };
    sim.tick(100);
    assert_eq!(sim.agents[0].pos, Vec2 { x: 4, y: 0 });
    assert_eq!(sim.agents[0].kind, Mock::Rock);
    assert_eq!(sim.agents[1].pos, Vec2 { x: 100, y: 0 });
    assert_eq!(sim.agents[1].kind, Mock::Scissors);
}

#[test]
fn tick_converts_contact_pairs() {
    // Two coincident agents: steering finds the prey already within
    // contact (no pursuit), the prey's flight has no direction (zero
    // displacement), so the resolver converts it in the same tick.
    let mut sim = sim_with_agents(vec![(Mock::Rock, 0, 0, 50), (Mock::Scissors, 0, 0, 50)]);
    sim.agents[0].vel = Vec2 { x: 0, y: 0 };
    sim.agents[1].vel = Vec2 { x: 0, y: 0 };
    sim.tick(100);
    assert_eq!(sim.agents[1].kind, Mock::Rock);
    assert_eq!(sim.agents[1].pos, Vec2 { x: 0, y: 0 });
}
