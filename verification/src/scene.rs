//! Choosing the surface that a ray meets first.
//!
//! Distances along a ray are handled as keys: unsigned integers that are
//! ordered as the distances are (see `binary64::key`). For each object the
//! caller supplies the two solutions of its intersection equation, or nothing
//! where the ray passes the object by. This module picks, within a range of
//! distances, the solution that counts for each object and the object that is
//! hit first.

use crate::binary64::{
    key, lemma_key_order, lemma_zero, less, negate, scaled, sign, spec_is_nan, spec_key,
    spec_less, spec_negate, Sign, SIGN_BIT, ZERO,
};
use vstd::prelude::*;

verus! {

/// The two distances at which a ray crosses the surface of one object, the
/// nearer one first.
#[derive(Clone, Copy, Debug, PartialEq, Eq, Structural)]
pub struct Roots {
    near: u64,
    far: u64,
}

/// Why the solutions of an intersection equation cannot be used.
#[derive(Clone, Copy, Debug, PartialEq, Eq, Structural)]
pub enum RootsError {
    /// The discriminant or a solution is no number, as happens for a ray
    /// without direction.
    NotANumber,
    /// The solution given as the nearer one lies behind the other.
    Unordered,
}

/// The encoding of the least distance at which a hit counts, `0.001`: a ray
/// that leaves a surface must not meet that surface again at once.
pub const NEAREST: u64 = 0x3f50_624d_d2f1_a9fc;

/// The encoding of the greatest distance at which a hit counts: the greatest
/// finite number of the format.
pub const FARTHEST: u64 = 0x7fef_ffff_ffff_ffff;

/// The closest accepted intersection of a ray with a scene.
#[derive(Clone, Copy, Debug, PartialEq, Eq, Structural)]
pub struct HitRecord {
    /// Index of the object in the scene.
    pub object: usize,
    /// Distance key of the intersection.
    pub t: u64,
}

/// The solution that counts for one object within `t_min..=t_max`: the nearer
/// one if it lies in the range, else the farther one if that does, else none.
pub open spec fn spec_first_root(roots: Option<Roots>, t_min: u64, t_max: u64) -> Option<u64> {
    match roots {
        None => None,
        Some(r) => if t_min <= r.spec_near() <= t_max {
            Some(r.spec_near())
        } else if t_min <= r.spec_far() <= t_max {
            Some(r.spec_far())
        } else {
            None
        },
    }
}

/// `hit` is the closest intersection within `t_min..=t_max`: it is the
/// counted solution of its object, no object has a smaller one, and no later
/// object has an equal one.
pub open spec fn is_closest(objects: Seq<Option<Roots>>, t_min: u64, t_max: u64, hit: HitRecord) -> bool {
    &&& hit.object < objects.len()
    &&& spec_first_root(objects[hit.object as int], t_min, t_max) == Some(hit.t)
    &&& forall|i: int|
        0 <= i < objects.len() ==> (#[trigger] spec_first_root(objects[i], t_min, t_max) matches Some(
            t,
        ) ==> hit.t <= t && (i > hit.object ==> hit.t < t))
}

/// No object is met within `t_min..=t_max`.
pub open spec fn all_missed(objects: Seq<Option<Roots>>, t_min: u64, t_max: u64) -> bool {
    forall|i: int|
        0 <= i < objects.len() ==> #[trigger] spec_first_root(objects[i], t_min, t_max) is None
}

impl HitRecord {
    /// Whether a ray meets a surface from outside: the dot product of its
    /// direction with the outward normal, given by its encoding, is
    /// negative.
    pub fn front_face(facing: u64) -> (front: bool)
        ensures
            front == spec_less(facing, ZERO),
    {
        less(facing, ZERO)
    }

    /// The normal that is stored for a hit, by the encodings of its three
    /// coordinates: the outward normal where the ray comes from outside,
    /// else its negation. `facing` is the encoding of the dot product of the
    /// ray's direction with the outward normal.
    pub fn set_face_normal(outward: (u64, u64, u64), facing: u64) -> (stored: (u64, u64, u64))
        ensures
            stored == (if spec_less(facing, ZERO) {
                outward
            } else {
                (spec_negate(outward.0), spec_negate(outward.1), spec_negate(outward.2))
            }),
    {
        if HitRecord::front_face(facing) {
            outward
        } else {
            (negate(outward.0), negate(outward.1), negate(outward.2))
        }
    }

    /// The dot product of a ray's direction with the normal that is stored
    /// for a hit, from its dot product with the outward normal: the stored
    /// normal is the outward one where the ray comes from outside, and its
    /// negation, which negates the dot product, otherwise.
    pub open spec fn stored_facing(facing: u64) -> int {
        if spec_less(facing, ZERO) {
            scaled(facing)
        } else {
            -scaled(facing)
        }
    }
}

/// The stored normal of a hit never points along the ray: its dot product
/// with the ray's direction is negative or zero.
pub proof fn lemma_stored_normal_opposes_ray(facing: u64)
    requires
        !spec_is_nan(facing),
    ensures
        HitRecord::stored_facing(facing) <= 0,
{
    lemma_zero(ZERO);
}

impl Roots {
    /// The key of the nearer solution.
    pub closed spec fn spec_near(self) -> u64 {
        self.near
    }

    /// The key of the farther solution.
    pub closed spec fn spec_far(self) -> u64 {
        self.far
    }

    /// The nearer solution does not lie behind the farther one.
    #[verifier::type_invariant]
    spec fn ordered(self) -> bool {
        self.near <= self.far
    }

    /// The pair of solutions `near` and `far`, or `None` where `near` lies
    /// behind `far`.
    pub fn new(near: u64, far: u64) -> (r: Option<Roots>)
        ensures
            match r {
                Some(roots) => near <= far && roots.spec_near() == near && roots.spec_far()
                    == far,
                None => near > far,
            },
    {
        if near <= far {
            Some(Roots { near, far })
        } else {
            None
        }
    }

    /// What an intersection equation yields, from the encodings of its
    /// discriminant and of its two solutions: nothing where the discriminant
    /// is negative, else the keys of the two solutions. The solutions are
    /// not looked at where the discriminant is negative.
    pub fn from_binary64(discriminant: u64, near: u64, far: u64) -> (r: Result<
        Option<Roots>,
        RootsError,
    >)
        ensures
            match r {
                Err(RootsError::NotANumber) => spec_is_nan(discriminant) || (scaled(discriminant)
                    >= 0 && (spec_is_nan(near) || spec_is_nan(far))),
                Ok(None) => !spec_is_nan(discriminant) && scaled(discriminant) < 0,
                Err(RootsError::Unordered) => !spec_is_nan(discriminant) && scaled(discriminant)
                    >= 0 && !spec_is_nan(near) && !spec_is_nan(far) && scaled(near) > scaled(far),
                Ok(Some(roots)) => !spec_is_nan(discriminant) && scaled(discriminant) >= 0
                    && !spec_is_nan(near) && !spec_is_nan(far) && scaled(near) <= scaled(far)
                    && roots.spec_near() == spec_key(near) && roots.spec_far() == spec_key(far),
            },
    {
        match sign(discriminant) {
            None => Err(RootsError::NotANumber),
            Some(Sign::Negative) => Ok(None),
            _ => match (key(near), key(far)) {
                (Some(k_near), Some(k_far)) => {
                    proof {
                        lemma_key_order(near, far);
                    }
                    if k_near <= k_far {
                        Ok(Some(Roots { near: k_near, far: k_far }))
                    } else {
                        Err(RootsError::Unordered)
                    }
                },
                _ => Err(RootsError::NotANumber),
            },
        }
    }

    /// The nearer solution.
    pub fn near(&self) -> (t: u64)
        ensures
            t == self.spec_near(),
            t <= self.spec_far(),
    {
        proof {
            use_type_invariant(self);
        }
        self.near
    }

    /// The farther solution.
    pub fn far(&self) -> (t: u64)
        ensures
            t == self.spec_far(),
            self.spec_near() <= t,
    {
        proof {
            use_type_invariant(self);
        }
        self.far
    }
}

/// The scene as one ray meets it: for each object, in the order of the
/// scene, the solutions of its intersection equation, or `None` where the
/// ray passes it by.
pub struct HittableList {
    pub objects: Vec<Option<Roots>>,
}

impl View for HittableList {
    type V = Seq<Option<Roots>>;

    open spec fn view(&self) -> Seq<Option<Roots>> {
        self.objects@
    }
}

impl HittableList {
    /// A scene without objects.
    pub fn new() -> (list: HittableList)
        ensures
            list@ == Seq::<Option<Roots>>::empty(),
    {
        HittableList { objects: Vec::new() }
    }

    /// Appends what the next object of the scene offers to the ray.
    pub fn add(&mut self, roots: Option<Roots>)
        ensures
            final(self)@ == old(self)@.push(roots),
    {
        self.objects.push(roots);
    }

    /// The closest intersection within `t_min..=t_max`: `Some` exactly when
    /// some object is met in that range, and then the one hit that no other
    /// object hides.
    pub fn hit(&self, t_min: u64, t_max: u64) -> (r: Option<HitRecord>)
        ensures
            match r {
                Some(hit) => is_closest(self@, t_min, t_max, hit),
                None => all_missed(self@, t_min, t_max),
            },
    {
        closest_hit(&self.objects, t_min, t_max)
    }

    /// The closest intersection that a light path takes note of: the one
    /// within the range from `NEAREST` to `FARTHEST`.
    pub fn visible_hit(&self) -> (r: Option<HitRecord>)
        ensures
            match r {
                Some(hit) => is_closest(self@, spec_key(NEAREST), spec_key(FARTHEST), hit),
                None => all_missed(self@, spec_key(NEAREST), spec_key(FARTHEST)),
            },
    {
        self.hit(SIGN_BIT + NEAREST, SIGN_BIT + FARTHEST)
    }
}

/// The solution that counts for one object within `t_min..=t_max`. The
/// nearer solution is tried first, so that the side of the object that faces
/// the ray hides the other.
pub fn first_root(roots: &Option<Roots>, t_min: u64, t_max: u64) -> (t: Option<u64>)
    ensures
        t == spec_first_root(*roots, t_min, t_max),
{
    match roots {
        None => None,
        Some(r) => {
            if t_min <= r.near && r.near <= t_max {
                Some(r.near)
            } else if t_min <= r.far && r.far <= t_max {
                Some(r.far)
            } else {
                None
            }
        },
    }
}

/// The closest intersection within `t_min..=t_max` over all objects, tested
/// in the order of the scene with the upper bound lowered to each accepted
/// distance. Among objects at the same closest distance the last one wins.
fn closest_hit(objects: &Vec<Option<Roots>>, t_min: u64, t_max: u64) -> (r: Option<HitRecord>)
    ensures
        match r {
            Some(hit) => is_closest(objects@, t_min, t_max, hit),
            None => all_missed(objects@, t_min, t_max),
        },
{
    let mut closest_so_far: u64 = t_max;
    let mut best: Option<HitRecord> = None;
    let mut i: usize = 0;
    while i < objects.len()
        invariant
            i <= objects.len(),
            closest_so_far <= t_max,
            match best {
                Some(hit) => is_closest(objects@.take(i as int), t_min, t_max, hit) && hit.t
                    == closest_so_far,
                None => all_missed(objects@.take(i as int), t_min, t_max) && closest_so_far
                    == t_max,
            },
        decreases objects.len() - i,
    {
        let ghost seen = objects@.take(i as int);
        let ghost next = objects@.take(i + 1);
        assert(next.len() == i + 1);
        assert(forall|j: int| 0 <= j < i ==> next[j] == seen[j]);
        assert(next[i as int] == objects@[i as int]);
        if let Some(roots) = &objects[i] {
            proof {
                use_type_invariant(roots);
            }
        }
        if let Some(t) = first_root(&objects[i], t_min, closest_so_far) {
            let hit = HitRecord { object: i, t };
            assert(is_closest(next, t_min, t_max, hit)) by {
                assert forall|j: int| 0 <= j < next.len() implies (#[trigger] spec_first_root(
                    next[j],
                    t_min,
                    t_max,
                ) matches Some(u) ==> hit.t <= u && (j > hit.object ==> hit.t < u)) by {
                    if j < i {
                        assert(spec_first_root(seen[j], t_min, t_max) == spec_first_root(
                            next[j],
                            t_min,
                            t_max,
                        ));
                    }
                }
            }
            closest_so_far = t;
            best = Some(hit);
        } else {
            match best {
                Some(hit) => {
                    assert(is_closest(next, t_min, t_max, hit)) by {
                        assert(spec_first_root(seen[hit.object as int], t_min, t_max) == Some(
                            hit.t,
                        ));
                        assert forall|j: int| 0 <= j < next.len() implies (
                        #[trigger] spec_first_root(next[j], t_min, t_max) matches Some(u) ==> hit.t
                            <= u && (j > hit.object ==> hit.t < u)) by {
                            if j < i {
                                assert(spec_first_root(seen[j], t_min, t_max) == spec_first_root(
                                    next[j],
                                    t_min,
                                    t_max,
                                ));
                            }
                        }
                    }
                },
                None => {
                    assert(all_missed(next, t_min, t_max)) by {
                        assert forall|j: int| 0 <= j < next.len() implies #[trigger] spec_first_root(
                            next[j],
                            t_min,
                            t_max,
                        ) is None by {
                            if j < i {
                                assert(spec_first_root(seen[j], t_min, t_max) is None);
                            }
                        }
                    }
                },
            }
        }
        i = i + 1;
    }
    proof {
        assert(objects@.take(objects@.len() as int) =~= objects@);
    }
    best
}

/// The closest intersection is unique: two hits that both meet `is_closest`
/// are the same hit.
pub proof fn lemma_closest_unique(
    objects: Seq<Option<Roots>>,
    t_min: u64,
    t_max: u64,
    a: HitRecord,
    b: HitRecord,
)
    requires
        is_closest(objects, t_min, t_max, a),
        is_closest(objects, t_min, t_max, b),
    ensures
        a == b,
{
    assert(spec_first_root(objects[a.object as int], t_min, t_max) == Some(a.t));
    assert(spec_first_root(objects[b.object as int], t_min, t_max) == Some(b.t));
}

/// A closest intersection and a miss exclude each other.
pub proof fn lemma_closest_excludes_miss(
    objects: Seq<Option<Roots>>,
    t_min: u64,
    t_max: u64,
    hit: HitRecord,
)
    requires
        is_closest(objects, t_min, t_max, hit),
    ensures
        !all_missed(objects, t_min, t_max),
{
    assert(spec_first_root(objects[hit.object as int], t_min, t_max) == Some(hit.t));
}

/// The order of the objects does not matter to the distance of the closest
/// intersection: two scenes in which the same objects occur, in whatever
/// order and however often, are hit at the same distance.
pub proof fn lemma_distance_independent_of_order(
    a: Seq<Option<Roots>>,
    b: Seq<Option<Roots>>,
    t_min: u64,
    t_max: u64,
    hit_a: HitRecord,
    hit_b: HitRecord,
)
    requires
        forall|i: int| 0 <= i < a.len() ==> b.contains(#[trigger] a[i]),
        forall|j: int| 0 <= j < b.len() ==> a.contains(#[trigger] b[j]),
        is_closest(a, t_min, t_max, hit_a),
        is_closest(b, t_min, t_max, hit_b),
    ensures
        hit_a.t == hit_b.t,
{
    let in_a = a[hit_a.object as int];
    let in_b = b[hit_b.object as int];
    assert(b.contains(in_a));
    assert(a.contains(in_b));
    let j = choose|j: int| 0 <= j < b.len() && b[j] == in_a;
    let i = choose|i: int| 0 <= i < a.len() && a[i] == in_b;
    assert(spec_first_root(b[j], t_min, t_max) == Some(hit_a.t));
    assert(spec_first_root(a[i], t_min, t_max) == Some(hit_b.t));
}

/// Two scenes in which the same objects occur are missed together.
pub proof fn lemma_miss_independent_of_order(
    a: Seq<Option<Roots>>,
    b: Seq<Option<Roots>>,
    t_min: u64,
    t_max: u64,
)
    requires
        forall|j: int| 0 <= j < b.len() ==> a.contains(#[trigger] b[j]),
        all_missed(a, t_min, t_max),
    ensures
        all_missed(b, t_min, t_max),
{
    assert forall|j: int| 0 <= j < b.len() implies #[trigger] spec_first_root(
        b[j],
        t_min,
        t_max,
    ) is None by {
        assert(a.contains(b[j]));
        let i = choose|i: int| 0 <= i < a.len() && a[i] == b[j];
        assert(spec_first_root(a[i], t_min, t_max) is None);
    }
}

} // verus!
