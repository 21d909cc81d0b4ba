//! End-to-end scenarios of the engine: constraint satisfaction,
//! collisions, breakage cascades and the pause scheduler.

use xpbd::constraint::Constraint;
use xpbd::constraint::constraint_template::ConstraintTemplate;
use xpbd::constraint::distance::DistanceConstraint;
use xpbd::constraint::distance::DistanceConstraintTemplate;
use xpbd::constraint::distance::DistanceConstraintType;
use xpbd::constraint::volume::VolumeConstraint;
use xpbd::constraint::volume::area_p;
use xpbd::controller_message::ControllerMessage;
use xpbd::fixed::FX_ONE;
use xpbd::particle::Particle;
use xpbd::particle::ParticleTemplate;
use xpbd::physical_model::PhysicalModel;
use xpbd::pworld::PWorld;
use xpbd::vec2::V2;

fn fx(x: f64) -> i64 {
    (x * 1e9).round() as i64
}

fn fl(x: i64) -> f64 {
    x as f64 / 1e9
}

/// One sub-step of the frame sequence, run by hand on a world.
fn substep(w: &mut PWorld, dt: i64, iterations: usize) {
    w.cg.pre_iteration(&w.pg);
    w.pg.update(dt);
    let tmp = w.pg.collision_constraints();
    w.cg.set_tmp_constraints(tmp);
    for _ in 0..iterations {
        w.cg.solve_constraints(&mut w.pg, dt);
    }
}

#[test]
fn s1_pendulum_rest() {
    let mut w = PWorld::default();
    let model = PhysicalModel {
        particles: vec![
            ParticleTemplate { imass: 0, pos: V2 { x: 0, y: 0 } },
            ParticleTemplate { imass: FX_ONE, pos: V2 { x: fx(1.0), y: 0 } },
        ],
        constraints: vec![ConstraintTemplate::Distance(DistanceConstraintTemplate {
            ps: vec![0, 1],
            l0: fx(1.0),
            compliance: 0,
            ty: DistanceConstraintType::Normal,
        })],
        dependencies: vec![],
    };
    w.add_model(model, V2 { x: 0, y: 0 });
    for _ in 0..200 {
        w.run();
    }
    let p = w.pg.particles[1].get_pos();
    let pin = w.pg.particles[0].get_pos();
    assert_eq!(pin.x, 0);
    assert_eq!(pin.y, 0);
    let r = (fl(p.x).powi(2) + fl(p.y).powi(2)).sqrt();
    assert!((r - 1.0).abs() < 1e-3, "pendulum length drifted: {}", r);
}

#[test]
fn s2_two_particle_collision() {
    let mut w = PWorld::default();
    let csize = w.pg.csize;
    w.pg.add_pref(Particle::new(0, FX_ONE, V2 { x: 0, y: 0 }, V2 { x: 0, y: 0 }));
    w.pg.add_pref(Particle::new(0, FX_ONE, V2 { x: csize / 2, y: 0 }, V2 { x: 0, y: 0 }));
    let dt = w.dt;
    w.pg.update(dt);
    let tmp = w.pg.collision_constraints();
    assert_eq!(tmp.len(), 1, "one collision constraint expected");
    w.cg.set_tmp_constraints(tmp);
    for _ in 0..20 {
        w.cg.solve_constraints(&mut w.pg, dt);
    }
    let a = w.pg.particles[0].get_pos();
    let b = w.pg.particles[1].get_pos();
    let sep = ((fl(a.x) - fl(b.x)).powi(2) + (fl(a.y) - fl(b.y)).powi(2)).sqrt();
    let c = fl(csize);
    assert!((sep - c).abs() / c <= 0.01, "separation {} not within 1% of {}", sep, c);
}

#[test]
fn s3_unmovable_triangle_area() {
    let mut w = PWorld::default();
    w.pg.add_pref(Particle::new(0, FX_ONE, V2 { x: 0, y: 0 }, V2 { x: 0, y: 0 }));
    w.pg.add_pref(Particle::new(0, FX_ONE, V2 { x: fx(1.0), y: 0 }, V2 { x: 0, y: 0 }));
    w.pg.add_pref(Particle::new(0, FX_ONE, V2 { x: 0, y: fx(1.0) }, V2 { x: 0, y: 0 }));
    let vc = VolumeConstraint::new(&w.pg.particles, vec![0, 1, 2]);
    let area0 = area_p(
        w.pg.particles[0].get_pos(),
        w.pg.particles[1].get_pos(),
        w.pg.particles[2].get_pos(),
    );
    w.cg.add_constraint(vc.build());
    let dt = w.dt;
    for _ in 0..100 {
        substep(&mut w, dt, 6);
    }
    let area1 = area_p(
        w.pg.particles[0].get_pos(),
        w.pg.particles[1].get_pos(),
        w.pg.particles[2].get_pos(),
    );
    // area_p is twice the triangle area, so the bound doubles too
    assert!((fl(area1) - fl(area0)).abs() < 2e-4, "area drifted: {} vs {}", fl(area1), fl(area0));
}

#[test]
fn s4_plastic_yield() {
    // A stretched configuration: the yield condition |l - l0| > cutoff
    // holds at once, and the rest length must relax toward, but not
    // beyond, the observed length.
    let mut w = PWorld::default();
    w.pg.add_pref(Particle::new(0, 0, V2 { x: 0, y: 0 }, V2 { x: 0, y: fx(9.8) }));
    w.pg.add_pref(Particle::new(0, FX_ONE, V2 { x: fx(1.5), y: 0 }, V2 { x: 0, y: fx(9.8) }));
    let con = DistanceConstraint::new_with_l0(0, 1, fx(1.0))
        .with_compliance(0)
        .with_plasticity(fx(0.5), fx(0.2));
    w.cg.add_constraint(con.build());
    let dt = w.dt;
    for _ in 0..200 {
        substep(&mut w, dt, 6);
    }
    let l0 = match &w.cg.constraints[0].1 {
        Constraint::Distance(d) => d.l0,
        _ => panic!("expected a distance constraint"),
    };
    let a = w.pg.particles[0].get_pos();
    let b = w.pg.particles[1].get_pos();
    let len = ((fl(a.x) - fl(b.x)).powi(2) + (fl(a.y) - fl(b.y)).powi(2)).sqrt();
    assert!(fl(l0) > 1.0, "rest length should have grown: {}", fl(l0));
    assert!(fl(l0) <= len + 1e-3, "rest length beyond equilibrium: {} vs {}", fl(l0), len);
}

#[test]
fn s5_break_and_cascade() {
    let mut w = PWorld::default();
    // A free; B and C anchored, no external acceleration
    w.pg.add_pref(Particle::new(0, FX_ONE, V2 { x: 0, y: 0 }, V2 { x: 0, y: 0 }));
    w.pg.add_pref(Particle::new(0, 0, V2 { x: fx(1.0), y: 0 }, V2 { x: 0, y: 0 }));
    w.pg.add_pref(Particle::new(0, 0, V2 { x: 0, y: fx(1.0) }, V2 { x: 0, y: 0 }));
    let ab = DistanceConstraint::new(&w.pg.particles, 0, 1).with_break_range([0, fx(1.5)]);
    let bc = DistanceConstraint::new(&w.pg.particles, 1, 2);
    let abc = VolumeConstraint::new(&w.pg.particles, vec![0, 1, 2]);
    let id_ab = w.cg.add_constraint(ab.build());
    let id_bc = w.cg.add_constraint(bc.build());
    let id_abc = w.cg.add_constraint(abc.build());
    w.cg.add_dependency(id_ab, vec![id_abc]);
    // drag A away with a marionette until AB exceeds 1.5 * l0
    w.handle_message(ControllerMessage::ControlParticle(0, V2 { x: fx(4.0), y: 0 }));
    for _ in 0..10 {
        w.run();
    }
    let snapshot = w.pr_model();
    let ids: Vec<isize> = snapshot.constraints.iter().map(|c| c.id).collect();
    assert!(!ids.contains(&(id_ab as isize)), "AB should have broken: {:?}", ids);
    assert!(
        !snapshot.constraints.iter().any(|c| c.particles.len() == 3),
        "ABC should have cascaded away"
    );
    assert!(ids.contains(&(id_bc as isize)), "BC should remain: {:?}", ids);
}

#[test]
fn s6_pause_and_step() {
    let mut w = PWorld::default().with_paused();
    let model = PhysicalModel {
        particles: vec![ParticleTemplate { imass: FX_ONE, pos: V2 { x: 0, y: 0 } }],
        constraints: vec![],
        dependencies: vec![],
    };
    w.add_model(model, V2 { x: 0, y: 0 });
    let initial = w.pr_model();
    // the first frame is owed and shows the initial configuration
    assert!(w.frame_tick());
    let first = w.pr_model();
    assert_eq!(first.particles[0].1.pos, initial.particles[0].1.pos);
    // while paused, no further snapshots are owed and nothing changes
    for _ in 0..5 {
        assert!(!w.frame_tick());
    }
    let paused = w.pr_model();
    assert_eq!(paused.particles[0].1.pos, first.particles[0].1.pos);
    // three single steps yield exactly three more snapshots
    let mut emitted = 0;
    for _ in 0..3 {
        w.handle_message(ControllerMessage::FrameForward);
        for _ in 0..4 {
            if w.frame_tick() {
                emitted += 1;
            }
        }
    }
    assert_eq!(emitted, 3);
    assert!(!w.frame_tick());
}

#[test]
fn toggle_pause_resumes_and_pauses() {
    let mut w = PWorld::default();
    assert_eq!(w.forward_frames, -1);
    w.handle_message(ControllerMessage::TogglePause);
    assert_eq!(w.forward_frames, 0);
    w.handle_message(ControllerMessage::TogglePause);
    assert_eq!(w.forward_frames, -1);
    // a step request while unpaused is a no-op
    w.handle_message(ControllerMessage::FrameForward);
    assert_eq!(w.forward_frames, -1);
}

#[test]
fn kinematic_particle_never_moves() {
    let mut w = PWorld::default();
    w.pg.add_pref(Particle::new(0, 0, V2 { x: fx(0.5), y: fx(0.5) }, V2 { x: 0, y: fx(9.8) }));
    w.pg.add_pref(Particle::new(0, FX_ONE, V2 { x: fx(0.52), y: fx(0.5) }, V2 { x: 0, y: fx(9.8) }));
    let con = DistanceConstraint::new_with_l0(0, 1, fx(0.4));
    w.cg.add_constraint(con.build());
    for _ in 0..50 {
        w.run();
    }
    let p = w.pg.particles[0].get_pos();
    assert_eq!(p.x, fx(0.5));
    assert_eq!(p.y, fx(0.5));
}

#[test]
fn broad_phase_pairs_unique_and_close() {
    let mut w = PWorld::default();
    let c = w.pg.csize;
    // a cluster of particles inside a few cells
    for i in 0..6i64 {
        for j in 0..4i64 {
            w.pg.add_pref(Particle::new(
                0,
                FX_ONE,
                V2 { x: i * c / 3, y: j * c / 3 },
                V2 { x: 0, y: 0 },
            ));
        }
    }
    let cons = w.pg.collision_constraints();
    let mut pairs: Vec<(usize, usize)> = Vec::new();
    for con in &cons {
        match con {
            Constraint::Distance(d) => {
                let ids = d.ps.ids();
                assert!(ids[0] < ids[1]);
                let a = w.pg.particles[ids[0]].get_pos();
                let b = w.pg.particles[ids[1]].get_pos();
                let dx = fl(a.x) - fl(b.x);
                let dy = fl(a.y) - fl(b.y);
                let dist = (dx * dx + dy * dy).sqrt();
                assert!(dist <= fl(c) + 1e-9, "emitted pair too far: {}", dist);
                pairs.push((ids[0], ids[1]));
            },
            _ => panic!("collision output must be distance constraints"),
        }
    }
    let n = pairs.len();
    pairs.sort();
    pairs.dedup();
    assert_eq!(pairs.len(), n, "a pair was emitted twice");
}

#[test]
fn breakage_is_exactly_at_range() {
    let mut w = PWorld::default();
    w.pg.add_pref(Particle::new(0, 0, V2 { x: 0, y: 0 }, V2 { x: 0, y: 0 }));
    w.pg.add_pref(Particle::new(0, 0, V2 { x: fx(1.0), y: 0 }, V2 { x: 0, y: 0 }));
    let con = DistanceConstraint::new_with_l0(0, 1, fx(1.0)).with_break_range([0, fx(1.5)]);
    w.cg.add_constraint(con.build());
    // within range: survives
    w.cg.pre_iteration(&w.pg);
    assert_eq!(w.cg.constraints.len(), 1);
    // beyond the range: dies on the next pass
    w.pg.particles[1].reset_pos(V2 { x: fx(1.6), y: 0 });
    w.cg.pre_iteration(&w.pg);
    assert_eq!(w.cg.constraints.len(), 0);
}
