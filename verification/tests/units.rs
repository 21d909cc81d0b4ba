//! Unit tests of the fixed-point layer, the clamp, the id lists and
//! the signed area.

use xpbd::constraint::particle_list::ParticleList;
use xpbd::constraint::rp;
use xpbd::constraint::volume::area_p;
use xpbd::pr_model::PrConstraint;
use xpbd::pr_model::PrModel;
use xpbd::pr_model::PrParticle;
use xpbd::texture_indexer::FaceInfo;
use xpbd::texture_indexer::TextureIndexer;
use xpbd::fixed::FX_ONE;
use xpbd::fixed::fx_abs;
use xpbd::fixed::fx_add;
use xpbd::fixed::fx_div;
use xpbd::fixed::fx_mul;
use xpbd::fixed::fx_sqrt;
use xpbd::fixed::fx_sub;
use xpbd::particle_group::floor_div;
use xpbd::posbox::Posbox;
use xpbd::vec2::V2;
use xpbd::vec2::v2_mag;
use xpbd::vec2::v2_sub;

fn fx(x: f64) -> i64 {
    (x * 1e9).round() as i64
}

#[test]
fn fixed_point_arithmetic() {
    assert_eq!(fx_add(fx(1.5), fx(2.25)), fx(3.75));
    assert_eq!(fx_sub(fx(1.5), fx(2.25)), fx(-0.75));
    assert_eq!(fx_mul(fx(2.0), fx(3.0)), fx(6.0));
    assert_eq!(fx_mul(fx(-2.0), fx(3.0)), fx(-6.0));
    assert_eq!(fx_div(fx(6.0), fx(3.0)), fx(2.0));
    assert_eq!(fx_div(fx(1.0), fx(-4.0)), fx(-0.25));
    assert_eq!(fx_abs(fx(-1.25)), fx(1.25));
    // saturation at the ends of the range
    assert_eq!(fx_add(i64::MAX, 1), i64::MAX);
    assert_eq!(fx_sub(i64::MIN, 1), i64::MIN);
}

#[test]
fn fixed_point_sqrt() {
    assert_eq!(fx_sqrt(fx(4.0)), fx(2.0));
    assert_eq!(fx_sqrt(fx(0.0)), 0);
    assert_eq!(fx_sqrt(fx(1.0)), fx(1.0));
    // sqrt(2) to fixed-point precision
    let r = fx_sqrt(fx(2.0));
    let expected = (2f64.sqrt() * 1e9) as i64;
    assert!((r - expected).abs() <= 1);
}

#[test]
fn floor_division() {
    assert_eq!(floor_div(7, 2), 3);
    assert_eq!(floor_div(-7, 2), -4);
    assert_eq!(floor_div(-8, 2), -4);
    assert_eq!(floor_div(0, 5), 0);
    assert_eq!(floor_div(-1, 1_000_000_000), -1);
}

#[test]
fn vector_magnitude() {
    let a = V2 { x: fx(3.0), y: fx(4.0) };
    let b = V2 { x: 0, y: 0 };
    assert_eq!(v2_mag(v2_sub(a, b)), fx(5.0));
}

#[test]
fn posbox_clamps() {
    let bx = Posbox { xmin: fx(-1.0), xmax: fx(1.0), ymin: fx(-1.0), ymax: fx(1.0) };
    let mut p = V2 { x: fx(2.0), y: fx(0.5) };
    let hit = bx.apply(&mut p);
    assert!(hit);
    assert_eq!(p.x, fx(1.0));
    assert_eq!(p.y, fx(0.5));
    let mut q = V2 { x: fx(0.0), y: fx(0.0) };
    assert!(!bx.apply(&mut q));
}

#[test]
fn particle_list_sorts() {
    let l = ParticleList::new(vec![5, 1, 3], true);
    assert_eq!(l.ids(), vec![1, 3, 5]);
    let u = ParticleList::new(vec![5, 1, 3], false);
    assert_eq!(u.ids(), vec![5, 1, 3]);
}

#[test]
fn test_area_p() {
    let p0 = V2 { x: fx(0.0), y: fx(0.0) };
    let p1 = V2 { x: fx(1.0), y: fx(0.0) };
    let p2 = V2 { x: fx(0.0), y: fx(2.0) };
    let a0 = area_p(p0, p1, p2);
    let a1 = area_p(p0, p2, p1);
    println!("{} {}", a0, a1);
    assert!((a0.abs() - fx(2.0)).abs() < fx(1e-6));
    assert!((a0 + a1).abs() < fx(1e-6));
}

#[test]
fn compile_model_builds_faces_with_fallback() {
    let mut ti = TextureIndexer::new();
    ti.add_faces(vec![7], vec![(0, FaceInfo { texture_id: 3, uvid: [4, 5, 6] })]);
    let model = PrModel {
        particles: vec![
            (0, PrParticle { pos: V2 { x: 0, y: 0 } }),
            (1, PrParticle { pos: V2 { x: 1, y: 0 } }),
            (2, PrParticle { pos: V2 { x: 0, y: 1 } }),
        ],
        constraints: vec![
            PrConstraint { id: 7, particles: vec![0, 1, 2] },
            PrConstraint { id: 9, particles: vec![2, 1, 0] },
            PrConstraint { id: 8, particles: vec![0, 1] },
        ],
    };
    let r = ti.compile_model(&model);
    assert_eq!(r.vs.len(), 3);
    assert_eq!(r.face_groups.len(), 2);
    let indexed = r.face_groups.iter().find(|g| g.0 == 3).unwrap();
    assert_eq!(indexed.1.faces.len(), 1);
    assert_eq!(indexed.1.faces[0].vid, [0, 1, 2]);
    assert_eq!(indexed.1.faces[0].uvid, [4, 5, 6]);
    let fallback = r.face_groups.iter().find(|g| g.0 == -1).unwrap();
    assert_eq!(fallback.1.faces.len(), 1);
    assert_eq!(fallback.1.faces[0].vid, [2, 1, 0]);
    assert_eq!(fallback.1.faces[0].uvid, [0, 0, 0]);
}

#[test]
fn random_nudge_stays_tiny() {
    for _ in 0..100 {
        let j = rp();
        assert!(0 <= j.x && j.x < 10_000);
        assert!(0 <= j.y && j.y < 10_000);
    }
}
