use path_tracer::binary64::{from_key, key};
use path_tracer::scene::{
    first_root, HitRecord, HittableList, Roots, RootsError, FARTHEST, NEAREST,
};

fn list(objects: &[Option<(u64, u64)>]) -> HittableList {
    let mut l = HittableList::new();
    for o in objects {
        l.add(o.map(|(near, far)| Roots::new(near, far).unwrap()));
    }
    l
}

#[test]
fn roots_must_be_ordered() {
    assert!(Roots::new(3, 2).is_none());
    let r = Roots::new(2, 3).unwrap();
    assert_eq!(r.near(), 2);
    assert_eq!(r.far(), 3);
    let same = Roots::new(4, 4).unwrap();
    assert_eq!(same.near(), same.far());
}

#[test]
fn the_nearer_root_is_preferred() {
    let r = Roots::new(5, 9);
    assert_eq!(first_root(&r, 0, 100), Some(5));
    assert_eq!(first_root(&r, 5, 5), Some(5));
    assert_eq!(first_root(&r, 5, 9), Some(5));
}

#[test]
fn the_farther_root_counts_when_the_nearer_is_out_of_range() {
    let r = Roots::new(5, 9);
    assert_eq!(first_root(&r, 6, 100), Some(9));
    assert_eq!(first_root(&r, 6, 9), Some(9));
    assert_eq!(first_root(&r, 9, 9), Some(9));
}

#[test]
fn no_root_in_range_is_a_miss() {
    let r = Roots::new(5, 9);
    assert_eq!(first_root(&r, 10, 100), None);
    assert_eq!(first_root(&r, 0, 4), None);
    assert_eq!(first_root(&r, 6, 8), None);
    assert_eq!(first_root(&None, 0, u64::MAX), None);
}

#[test]
fn empty_scene_is_a_miss() {
    assert_eq!(HittableList::new().hit(0, u64::MAX), None);
}

#[test]
fn the_closest_object_wins() {
    let l = list(&[Some((50, 60)), Some((5, 9)), None, Some((20, 30))]);
    assert_eq!(l.hit(0, 1000), Some(HitRecord { object: 1, t: 5 }));
    assert_eq!(l.hit(6, 1000), Some(HitRecord { object: 1, t: 9 }));
    assert_eq!(l.hit(10, 1000), Some(HitRecord { object: 3, t: 20 }));
    assert_eq!(l.hit(31, 1000), Some(HitRecord { object: 0, t: 50 }));
    assert_eq!(l.hit(61, 1000), None);
    assert_eq!(l.hit(0, 4), None);
}

#[test]
fn order_of_the_objects_does_not_change_the_distance() {
    let a = list(&[Some((50, 60)), Some((5, 9)), Some((20, 30))]);
    let b = list(&[Some((20, 30)), Some((50, 60)), Some((5, 9))]);
    let c = list(&[Some((5, 9)), Some((20, 30)), Some((50, 60))]);
    assert_eq!(a.hit(1, 100).unwrap().t, 5);
    assert_eq!(b.hit(1, 100).unwrap().t, 5);
    assert_eq!(c.hit(1, 100).unwrap().t, 5);
    assert_eq!(a.hit(1, 100).unwrap().object, 1);
    assert_eq!(b.hit(1, 100).unwrap().object, 2);
    assert_eq!(c.hit(1, 100).unwrap().object, 0);
}

#[test]
fn among_equal_distances_the_last_object_wins() {
    let l = list(&[Some((7, 8)), Some((7, 20)), Some((3, 7))]);
    assert_eq!(l.hit(5, 100), Some(HitRecord { object: 2, t: 7 }));
    let m = list(&[Some((7, 8)), Some((7, 20)), Some((8, 9))]);
    assert_eq!(m.hit(5, 100), Some(HitRecord { object: 1, t: 7 }));
}

#[test]
fn a_hidden_far_side_is_not_a_hit() {
    // The second object's near side is too close; its far side lies behind the first object.
    let l = list(&[Some((10, 12)), Some((1, 11))]);
    assert_eq!(l.hit(2, 100), Some(HitRecord { object: 0, t: 10 }));
    // In front of the first object it counts.
    let m = list(&[Some((10, 12)), Some((1, 9))]);
    assert_eq!(m.hit(2, 100), Some(HitRecord { object: 1, t: 9 }));
}

#[test]
fn bounds_are_inclusive() {
    let l = list(&[Some((10, 12))]);
    assert_eq!(l.hit(10, 10), Some(HitRecord { object: 0, t: 10 }));
    assert_eq!(l.hit(11, 12), Some(HitRecord { object: 0, t: 12 }));
    assert_eq!(l.hit(11, 11), None);
    assert_eq!(l.hit(0, u64::MAX), Some(HitRecord { object: 0, t: 10 }));
}

/// The solutions of |o + t d - c|^2 = r^2, as the renderer computes them.
fn sphere_roots(o: [f64; 3], d: [f64; 3], c: [f64; 3], r: f64) -> Result<Option<Roots>, RootsError> {
    let oc = [o[0] - c[0], o[1] - c[1], o[2] - c[2]];
    let a = d[0] * d[0] + d[1] * d[1] + d[2] * d[2];
    let half_b = oc[0] * d[0] + oc[1] * d[1] + oc[2] * d[2];
    let cc = oc[0] * oc[0] + oc[1] * oc[1] + oc[2] * oc[2] - r * r;
    let disc = half_b * half_b - a * cc;
    let sqrtd = disc.sqrt();
    let near = (-half_b - sqrtd) / a;
    let far = (-half_b + sqrtd) / a;
    Roots::from_binary64(disc.to_bits(), near.to_bits(), far.to_bits())
}

fn distance(h: HitRecord) -> f64 {
    f64::from_bits(from_key(h.t).unwrap())
}

#[test]
fn a_ray_aimed_at_the_centre_hits_at_distance_minus_radius() {
    let t_min = key(0.001f64.to_bits()).unwrap();
    let t_max = key(f64::MAX.to_bits()).unwrap();
    let mut l = HittableList::new();
    l.add(sphere_roots([0.0, 0.0, 0.0], [0.0, 0.0, -1.0], [0.0, 0.0, -5.0], 2.0).unwrap());
    let h = l.hit(t_min, t_max).unwrap();
    assert_eq!(h.object, 0);
    assert!((distance(h) - 3.0).abs() < 1e-12);

    let mut m = HittableList::new();
    m.add(sphere_roots([1.0, 2.0, 3.0], [3.0, 4.0, 0.0], [13.0, 18.0, 3.0], 5.0).unwrap());
    let g = m.hit(t_min, t_max).unwrap();
    // The direction has length 5 and the centre is 20 away: t = (20 - 5) / 5.
    assert!((distance(g) - 3.0).abs() < 1e-12);
}

#[test]
fn a_ray_that_passes_a_sphere_by_does_not_hit() {
    let t_min = key(0.001f64.to_bits()).unwrap();
    let t_max = key(f64::MAX.to_bits()).unwrap();
    let miss = sphere_roots([0.0, 2.5, 0.0], [0.0, 0.0, -1.0], [0.0, 0.0, -5.0], 2.0);
    assert_eq!(miss, Ok(None));
    let mut l = HittableList::new();
    l.add(miss.unwrap());
    assert_eq!(l.hit(t_min, t_max), None);
}

#[test]
fn a_sphere_behind_the_ray_does_not_hit() {
    let t_min = key(0.001f64.to_bits()).unwrap();
    let t_max = key(f64::MAX.to_bits()).unwrap();
    let mut l = HittableList::new();
    l.add(sphere_roots([0.0, 0.0, 0.0], [0.0, 0.0, 1.0], [0.0, 0.0, -5.0], 2.0).unwrap());
    assert_eq!(l.hit(t_min, t_max), None);
}

#[test]
fn from_inside_the_far_side_is_hit() {
    let t_min = key(0.001f64.to_bits()).unwrap();
    let t_max = key(f64::MAX.to_bits()).unwrap();
    let mut l = HittableList::new();
    l.add(sphere_roots([0.0, 0.0, 0.0], [0.0, 0.0, -1.0], [0.0, 0.0, 0.0], 2.0).unwrap());
    let h = l.hit(t_min, t_max).unwrap();
    assert!((distance(h) - 2.0).abs() < 1e-12);
}

#[test]
fn the_nearer_of_two_spheres_hides_the_other() {
    let t_min = key(0.001f64.to_bits()).unwrap();
    let t_max = key(f64::MAX.to_bits()).unwrap();
    let far = sphere_roots([0.0, 0.0, 0.0], [0.0, 0.0, -1.0], [0.0, 0.0, -50.0], 2.0).unwrap();
    let near = sphere_roots([0.0, 0.0, 0.0], [0.0, 0.0, -1.0], [0.0, 0.0, -5.0], 1.0).unwrap();
    let mut l = HittableList::new();
    l.add(far);
    l.add(near);
    let h = l.hit(t_min, t_max).unwrap();
    assert_eq!(h.object, 1);
    assert!((distance(h) - 4.0).abs() < 1e-12);
    let mut m = HittableList::new();
    m.add(near);
    m.add(far);
    assert_eq!(m.hit(t_min, t_max).unwrap().object, 0);
}

#[test]
fn a_ray_without_direction_is_refused() {
    let r = sphere_roots([0.0, 0.0, 0.0], [0.0, 0.0, 0.0], [0.0, 0.0, -5.0], 2.0);
    assert_eq!(r, Err(RootsError::NotANumber));
    let inside = sphere_roots([0.0, 0.0, 0.0], [0.0, 0.0, 0.0], [0.0, 0.0, -1.0], 2.0);
    assert_eq!(inside, Err(RootsError::NotANumber));
}

#[test]
fn roots_from_encodings() {
    let e = |v: f64| v.to_bits();
    assert_eq!(Roots::from_binary64(e(-1.0), e(1.0), e(2.0)), Ok(None));
    assert_eq!(Roots::from_binary64(e(-1.0), e(f64::NAN), e(f64::NAN)), Ok(None));
    assert_eq!(
        Roots::from_binary64(e(f64::NAN), e(1.0), e(2.0)),
        Err(RootsError::NotANumber)
    );
    assert_eq!(
        Roots::from_binary64(e(0.0), e(f64::NAN), e(2.0)),
        Err(RootsError::NotANumber)
    );
    assert_eq!(
        Roots::from_binary64(e(0.0), e(1.0), e(f64::NAN)),
        Err(RootsError::NotANumber)
    );
    assert_eq!(Roots::from_binary64(e(4.0), e(2.0), e(1.0)), Err(RootsError::Unordered));
    let r = Roots::from_binary64(e(-0.0), e(-1.0), e(2.0)).unwrap().unwrap();
    assert_eq!(r.near(), key(e(-1.0)).unwrap());
    assert_eq!(r.far(), key(e(2.0)).unwrap());
    let touch = Roots::from_binary64(e(0.0), e(3.0), e(3.0)).unwrap().unwrap();
    assert_eq!(touch.near(), touch.far());
}

#[test]
fn the_visible_range_starts_just_off_the_surface() {
    assert_eq!(NEAREST, 0.001f64.to_bits());
    assert_eq!(FARTHEST, f64::MAX.to_bits());
    let e = |v: f64| v.to_bits();
    let at = |near: f64, far: f64| {
        let mut l = HittableList::new();
        l.add(Roots::from_binary64(e(1.0), e(near), e(far)).unwrap());
        l.visible_hit().map(distance)
    };
    assert_eq!(at(0.001, 5.0), Some(0.001));
    assert_eq!(at(0.000_999, 5.0), Some(5.0));
    assert_eq!(at(-4.0, 0.0), None);
    assert_eq!(at(-4.0, f64::MAX), Some(f64::MAX));
    assert_eq!(at(-4.0, f64::INFINITY), None);
    assert_eq!(at(2.0, 3.0), Some(2.0));
    let mut same = HittableList::new();
    same.add(Roots::from_binary64(e(1.0), e(2.0), e(3.0)).unwrap());
    assert_eq!(
        same.visible_hit(),
        same.hit(key(NEAREST).unwrap(), key(FARTHEST).unwrap())
    );
}
