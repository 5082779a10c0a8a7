use penrose::golden::Golden;
use penrose::pairing::{tiles_to_rhomboids, Rhomboid};
use penrose::point::Point;
use penrose::tile::{inflate, inflate_tile, rtile, BTile, RTile};
use penrose::tiling::{fits, generate, generate_tiling, TilingError};

const PHI: f64 = 1.618033988749894848;

fn golden_value(g: Golden) -> f64 {
    g.m as f64 + g.n as f64 * PHI
}

/// Cartesian coordinates of `x + y * zeta`, zeta = e^(i pi / 5).
fn cartesian(p: Point) -> (f64, f64) {
    let angle = std::f64::consts::PI / 5.0;
    let x = golden_value(p.x);
    let y = golden_value(p.y);
    (x + y * angle.cos(), y * angle.sin())
}

fn area(t: &RTile) -> f64 {
    let (ax, ay) = cartesian(t.a);
    let (bx, by) = cartesian(t.b);
    let (cx, cy) = cartesian(t.c);
    ((bx - ax) * (cy - ay) - (by - ay) * (cx - ax)).abs() / 2.0
}

fn total_area(ts: &[RTile]) -> f64 {
    ts.iter().map(area).sum()
}

fn count(ts: &[RTile], k: BTile) -> usize {
    ts.iter().filter(|t| t.t == k).count()
}

fn pt(xm: i64, xn: i64, ym: i64, yn: i64) -> Point {
    Point::new(Golden::new(xm, xn), Golden::new(ym, yn))
}

fn same_rhombus(r: &Rhomboid, s: &Rhomboid) -> bool {
    r.a == s.a && r.b == s.b && r.c == s.c && r.d == s.d && r.t == s.t
}

fn same_tile(r: &RTile, s: &RTile) -> bool {
    r.a == s.a && r.b == s.b && r.c == s.c && r.t == s.t
}

#[test]
fn zero_generations_give_ten_small_triangles() {
    let seed = generate_tiling(10, 0);
    assert_eq!(seed.len(), 10);
    assert!(seed.iter().all(|t| t.t == BTile::S));
    // every seed diagonal lies on the rim of the decagon: no two seed triangles share one
    let rhombi = tiles_to_rhomboids(seed);
    assert_eq!(rhombi.len(), 0);
    let out = generate(10, 0).unwrap();
    assert_eq!(out.len(), 0);
    // one round later the first rhombi appear
    assert!(!generate(10, 1).unwrap().is_empty());
}

#[test]
fn seed_is_a_fan_and_its_mirror() {
    let seed = generate_tiling(10, 0);
    let origin = pt(0, 0, 0, 0);
    assert!(seed.iter().all(|t| t.b == origin));
    assert_eq!(seed[0].a, pt(10, 0, 0, 0));
    assert_eq!(seed[0].c, pt(0, 0, 10, 0));
    assert_eq!(seed[4].c, pt(-10, 0, 0, 0));
    // the mirror of zeta is phi - zeta
    assert_eq!(seed[5].c, pt(0, 10, -10, 0));
    assert_eq!(seed[5].a, seed[0].a);
}

#[test]
fn kind_counts_follow_the_recurrence() {
    let expected = [(0, 10), (10, 10), (30, 20), (80, 50), (210, 130), (550, 340)];
    for (n, &(large, small)) in expected.iter().enumerate() {
        let t = generate_tiling(10, n as u64);
        assert_eq!(count(&t, BTile::L), large);
        assert_eq!(count(&t, BTile::S), small);
    }
    for n in 0..5u64 {
        let t = generate_tiling(1, n);
        let u = generate_tiling(1, n + 1);
        let (l, s) = (count(&t, BTile::L), count(&t, BTile::S));
        assert_eq!(count(&u, BTile::L), 2 * l + s);
        assert_eq!(count(&u, BTile::S), l + s);
    }
}

#[test]
fn seven_generations_stay_within_the_bound() {
    let t = generate_tiling(1, 7);
    assert_eq!(t.len(), 6100);
    for n in 0..7u64 {
        let a = generate_tiling(1, n).len();
        let b = generate_tiling(1, n + 1).len();
        assert!(2 * a <= b && b <= 3 * a);
    }
}

#[test]
fn generate_is_deterministic() {
    let r1 = generate(7, 4).unwrap();
    let r2 = generate(7, 4).unwrap();
    assert_eq!(r1.len(), r2.len());
    assert!(r1.iter().zip(r2.iter()).all(|(x, y)| same_rhombus(x, y)));
}

#[test]
fn one_round_on_the_seed_is_the_first_generation() {
    let once = inflate(generate_tiling(10, 0));
    let direct = generate_tiling(10, 1);
    assert_eq!(once.len(), direct.len());
    assert!(once.iter().zip(direct.iter()).all(|(x, y)| same_tile(x, y)));
}

#[test]
fn subdivision_preserves_area() {
    for n in 0..4u64 {
        let t = generate_tiling(10, n);
        let before = total_area(&t);
        let after = total_area(&inflate(t));
        assert!((before - after).abs() <= 1e-9 * before);
    }
    // an arbitrary large triangle, not part of any tiling
    let odd = vec![rtile(pt(3, 1, 0, 0), pt(-2, 0, 5, 1), pt(0, 0, 0, -4), BTile::L)];
    let before = total_area(&odd);
    let after = total_area(&inflate(odd));
    assert!((before - after).abs() <= 1e-9 * before);
}

#[test]
fn rhombi_are_convex_with_distinct_vertices() {
    let rhombi = generate(10, 5).unwrap();
    assert!(!rhombi.is_empty());
    for r in rhombi.iter() {
        let v = [r.a, r.b, r.c, r.d];
        for i in 0..4 {
            for j in (i + 1)..4 {
                assert!(v[i] != v[j]);
            }
        }
        let c: Vec<(f64, f64)> = v.iter().map(|p| cartesian(*p)).collect();
        let mut signs = Vec::new();
        for i in 0..4 {
            let (p, q, s) = (c[i], c[(i + 1) % 4], c[(i + 2) % 4]);
            signs.push((q.0 - p.0) * (s.1 - q.1) - (q.1 - p.1) * (s.0 - q.0));
        }
        assert!(signs.iter().all(|s| *s > 0.0) || signs.iter().all(|s| *s < 0.0));
    }
}

#[test]
fn large_rule_has_three_children() {
    let t = rtile(pt(1, 0, 0, 0), pt(0, 0, 0, 0), pt(0, 0, 1, 0), BTile::L);
    let c = inflate_tile(t);
    assert_eq!(c.len(), 3);
    // d = psi^2 a + psi c, e = psi^2 a + psi b
    let d = pt(2, -1, -1, 1);
    let e = pt(2, -1, 0, 0);
    assert!(same_tile(&c[0], &rtile(d, e, t.a, BTile::L)));
    assert!(same_tile(&c[1], &rtile(e, d, t.b, BTile::S)));
    assert!(same_tile(&c[2], &rtile(t.c, d, t.b, BTile::L)));
}

#[test]
fn small_rule_has_two_children() {
    let t = rtile(pt(1, 0, 0, 0), pt(0, 0, 0, 0), pt(0, 0, 1, 0), BTile::S);
    let c = inflate_tile(t);
    assert_eq!(c.len(), 2);
    // d = psi a + psi^2 b
    let d = pt(-1, 1, 0, 0);
    assert!(same_tile(&c[0], &rtile(d, t.c, t.a, BTile::S)));
    assert!(same_tile(&c[1], &rtile(t.c, d, t.b, BTile::L)));
}

#[test]
fn point_primitives_are_exact() {
    let one = pt(1, 0, 0, 0);
    let zeta = one.rotate();
    assert_eq!(zeta, pt(0, 0, 1, 0));
    let mut p = one;
    for _ in 0..5 {
        p = p.rotate();
    }
    assert_eq!(p, pt(-1, 0, 0, 0));
    for _ in 0..5 {
        p = p.rotate();
    }
    assert_eq!(p, one);
    assert_eq!(zeta.conj(), pt(0, 1, -1, 0));
    assert_eq!(zeta.conj().conj(), zeta);
    assert_eq!(one.neg(), pt(-1, 0, 0, 0));
    assert_eq!(Golden::mix(Golden::new(1, 0), Golden::new(0, 0)), Golden::new(2, -1));
    assert_eq!(Golden::mix(Golden::new(0, 0), Golden::new(1, 0)), Golden::new(-1, 1));
    assert_eq!(Golden::new(1, 2).add_phi_times(Golden::new(3, 4)), Golden::new(5, 9));
}

#[test]
fn pairing_matches_shared_diagonals_only() {
    let a = pt(1, 0, 0, 0);
    let c = pt(0, 0, 1, 0);
    let b1 = pt(0, 0, 0, 0);
    let b2 = pt(2, 0, 0, 0);
    let lone = rtile(c, b1, a, BTile::S);
    let x = rtile(a, b1, c, BTile::S);
    let y = rtile(a, b2, c, BTile::L);
    let r = tiles_to_rhomboids(vec![y, lone, x]);
    assert_eq!(r.len(), 1);
    assert!(same_rhombus(&r[0], &Rhomboid { a, b: b1, c, d: b2, t: BTile::S }));
    assert!(tiles_to_rhomboids(vec![lone, x]).is_empty());
    assert!(tiles_to_rhomboids(Vec::new()).is_empty());
}

#[test]
fn zero_scale_gives_a_degenerate_tiling() {
    let t = generate_tiling(0, 2);
    assert_eq!(t.len(), 50);
    let origin = pt(0, 0, 0, 0);
    assert!(t.iter().all(|x| x.a == origin && x.b == origin && x.c == origin));
    assert_eq!(generate(0, 2).unwrap().len(), 25);
}

#[test]
fn bad_arguments_are_rejected() {
    assert!(matches!(generate(10, -1), Err(TilingError::NegativeGenerations)));
    assert!(matches!(generate(i64::MAX, 0), Err(TilingError::TooLarge)));
    assert!(matches!(generate(1, 27), Err(TilingError::TooLarge)));
    assert!(fits(1, 26));
    assert!(!fits(2, 26));
    assert!(fits(0, 26));
    assert!(!fits(0, 27));
    assert!(fits(0x2000_0000_0000_0000, 0));
    assert!(!fits(0x2000_0000_0000_0001, 0));
    assert!(!fits(i64::MIN, 0));
}
