//! Intersection records and the scene graph: a sphere, or an ordered list
//! of nested hittables, intersected against a ray over a distance window.

use crate::interval::Interval;
use crate::material::{material_wf, Lambertian, Material};
use crate::ray::{Point3, Ray};
use crate::rtweekend::INFINITY;
use crate::sphere::{sphere_hit_s, sphere_wf, Sphere};
use crate::vec3::{
    cbound, dot, dot_s, lemma_dot_bound, lemma_dot_neg_right, lensq_s, vneg, Vec3, Vec3i,
};
use vstd::prelude::*;

verus! {

/// The mathematical value of a hit record.
pub ghost struct HitRecS {
    pub p: Vec3i,
    pub normal: Vec3i,
    pub t: int,
    pub front_face: bool,
    pub mat: Material,
}

/// A hit: the point, the unit surface normal oriented against the incoming
/// ray, the ray parameter, which side was struck, and the surface material.
#[derive(Clone, Copy, Debug)]
pub struct HitRecord {
    pub p: Point3,
    pub normal: Vec3,
    pub t: i64,
    pub front_face: bool,
    pub mat: Material,
}

impl View for HitRecord {
    type V = HitRecS;

    open spec fn view(&self) -> HitRecS {
        HitRecS {
            p: self.p@,
            normal: self.normal@,
            t: self.t as int,
            front_face: self.front_face,
            mat: self.mat,
        }
    }
}

impl HitRecord {
    /// An empty record, to be filled by an intersection test.
    pub fn new() -> (r: Self)
        ensures
            r@.p == (Vec3i { x: 0int, y: 0int, z: 0int }),
            r@.normal == (Vec3i { x: 0int, y: 0int, z: 0int }),
            r@.t == 0,
            !r@.front_face,
            r@.mat == (Material::Lambertian(
                Lambertian { albedo: (Vec3 { x: 0i64, y: 0i64, z: 0i64 }) },
            )),
    {
        HitRecord {
            p: Point3::new(),
            normal: Vec3::new(),
            t: 0,
            front_face: false,
            mat: Material::new(),
        }
    }

    /// Fix the stored normal's orientation once: it points against the
    /// incoming ray, and `front_face` records which side was struck.
    /// `outward_normal` must arrive with unit length.
    pub fn set_face_normal(&mut self, r: Ray, outward_normal: Vec3)
        requires
            cbound(outward_normal@, 30_000),
            cbound(r.dir@, 100_000_000),
        ensures
            final(self).front_face == (dot_s(r.dir@, outward_normal@) < 0),
            final(self).normal@ == (if dot_s(r.dir@, outward_normal@) < 0 {
                outward_normal@
            } else {
                vneg(outward_normal@)
            }),
            final(self).p == old(self).p,
            final(self).t == old(self).t,
            final(self).mat == old(self).mat,
            dot_s(r.dir@, final(self).normal@) <= 0,
    {
        proof {
            lemma_dot_bound(r.dir@, outward_normal@, 100_000_000int, 30_000int);
            lemma_dot_neg_right(r.dir@, outward_normal@);
        }
        self.front_face = dot(*r.direction(), outward_normal) < 0;

        if self.front_face {
            self.normal = outward_normal;
        } else {
            self.normal = outward_normal.neg();
        }
    }
}

/// A surface a ray can strike: a sphere, or an ordered list of hittables.
pub enum Hittable {
    Sphere(Sphere),
    HittableList(HittableList),
}

/// An ordered collection of hittables, owned by the list.
pub struct HittableList {
    pub objects: Vec<Hittable>,
}

/// Every shape in the tree is well formed.
pub open spec fn hittable_wf(h: Hittable) -> bool
    decreases h, 0int,
{
    match h {
        Hittable::Sphere(s) => sphere_wf(s),
        Hittable::HittableList(l) => list_wf_from(l.objects@, 0),
    }
}

/// Every shape from index `i` on is well formed.
pub open spec fn list_wf_from(s: Seq<Hittable>, i: int) -> bool
    decreases s, s.len() - i,
{
    if i < 0 || i >= s.len() {
        true
    } else {
        hittable_wf(s[i]) && list_wf_from(s, i + 1)
    }
}

/// The intersection law of a shape: a sphere intersects directly; a list
/// folds over its children with a shrinking window.
pub open spec fn hit_s(h: Hittable, r: Ray, tmin: int, tmax: int) -> Option<HitRecS>
    decreases h, 0int,
{
    match h {
        Hittable::Sphere(s) => sphere_hit_s(s, r, tmin, tmax),
        Hittable::HittableList(l) => list_hit_from(l.objects@, 0, r, tmin, tmax, Option::None),
    }
}

/// Fold the children from index `i` on: each child is intersected against
/// a window capped at the closest hit so far, so the surviving record is
/// the nearest hit over all children, with later exact ties winning.
pub open spec fn list_hit_from(
    s: Seq<Hittable>,
    i: int,
    r: Ray,
    tmin: int,
    closest: int,
    best: Option<HitRecS>,
) -> Option<HitRecS>
    decreases s, s.len() - i,
{
    if i < 0 || i >= s.len() {
        best
    } else {
        match hit_s(s[i], r, tmin, closest) {
            Option::Some(rec) => list_hit_from(s, i + 1, r, tmin, rec.t, Option::Some(rec)),
            Option::None => list_hit_from(s, i + 1, r, tmin, closest, best),
        }
    }
}

/// Well-formedness of a tail gives well-formedness of each element in it.
pub proof fn lemma_list_wf_index(s: Seq<Hittable>, j: int, i: int)
    requires
        list_wf_from(s, j),
        0 <= j <= i < s.len(),
    ensures
        hittable_wf(s[i]),
    decreases i - j,
{
    if j < i {
        lemma_list_wf_index(s, j + 1, i);
    }
}

/// What every successful hit guarantees about its record, whatever shape
/// produced it: the parameter lies strictly inside the window, the point
/// and normal are bounded, the normal is unit grade and faces against the
/// ray, and the material is well formed.
pub open spec fn rec_ok(rec: HitRecS, r: Ray, tmin: int, tmax: int) -> bool {
    &&& tmin < rec.t < tmax
    &&& cbound(rec.p, 600_000_000_000_000)
    &&& cbound(rec.normal, 20_000)
    &&& lensq_s(rec.normal) >= 2500
    &&& dot_s(r.dir@, rec.normal) <= 0
    &&& material_wf(rec.mat)
}

/// What every hit call requires of its ray and window.
pub open spec fn hit_args_ok(r: Ray, tmin: int, tmax: int) -> bool {
    &&& cbound(r.orig@, 100_000_000)
    &&& cbound(r.dir@, 100_000_000)
    &&& 1 <= lensq_s(r.dir@)
    &&& -INFINITY <= tmin
    &&& tmax <= INFINITY
}


/// Nearest-hit invariant: over a list of two spheres that a ray hits at
/// different distances, the list returns the nearer sphere's record, and
/// reversing the insertion order returns the same record.
pub proof fn lemma_two_sphere_nearest(
    sa: Sphere,
    sb: Sphere,
    l: HittableList,
    l2: HittableList,
    r: Ray,
    tmin: int,
    tmax: int,
)
    requires
        l.objects@.len() == 2,
        l.objects@[0] == Hittable::Sphere(sa),
        l.objects@[1] == Hittable::Sphere(sb),
        l2.objects@.len() == 2,
        l2.objects@[0] == Hittable::Sphere(sb),
        l2.objects@[1] == Hittable::Sphere(sa),
        lensq_s(r.dir@) >= 1,
        sphere_hit_s(sa, r, tmin, tmax).is_some(),
        sphere_hit_s(sb, r, tmin, tmax).is_some(),
        sphere_hit_s(sa, r, tmin, tmax).unwrap().t < sphere_hit_s(sb, r, tmin, tmax).unwrap().t,
    ensures
        hit_s(Hittable::HittableList(l), r, tmin, tmax) == sphere_hit_s(sa, r, tmin, tmax),
        hit_s(Hittable::HittableList(l2), r, tmin, tmax) == sphere_hit_s(sa, r, tmin, tmax),
{
    let reca = sphere_hit_s(sa, r, tmin, tmax).unwrap();
    let recb = sphere_hit_s(sb, r, tmin, tmax).unwrap();

    // Nearer sphere first: the second sphere misses the capped window.
    crate::sphere::lemma_sphere_hit_tighter_none(sb, r, tmin, tmax, reca.t);
    assert(hit_s(l.objects@[0], r, tmin, tmax) == Option::Some(reca));
    assert(hit_s(l.objects@[1], r, tmin, reca.t) == Option::<HitRecS>::None);
    assert(list_hit_from(l.objects@, 0, r, tmin, tmax, Option::None) == list_hit_from(
        l.objects@,
        1,
        r,
        tmin,
        reca.t,
        Option::Some(reca),
    ));
    assert(list_hit_from(l.objects@, 1, r, tmin, reca.t, Option::Some(reca)) == list_hit_from(
        l.objects@,
        2,
        r,
        tmin,
        reca.t,
        Option::Some(reca),
    ));
    assert(list_hit_from(l.objects@, 2, r, tmin, reca.t, Option::Some(reca)) == Option::Some(
        reca,
    ));

    // Farther sphere first: the nearer sphere still hits under the cap
    // and its closer record replaces the farther one.
    crate::sphere::lemma_sphere_hit_tighter_same(sa, r, tmin, tmax, recb.t);
    assert(hit_s(l2.objects@[0], r, tmin, tmax) == Option::Some(recb));
    assert(hit_s(l2.objects@[1], r, tmin, recb.t) == Option::Some(reca));
    assert(list_hit_from(l2.objects@, 0, r, tmin, tmax, Option::None) == list_hit_from(
        l2.objects@,
        1,
        r,
        tmin,
        recb.t,
        Option::Some(recb),
    ));
    assert(list_hit_from(l2.objects@, 1, r, tmin, recb.t, Option::Some(recb)) == list_hit_from(
        l2.objects@,
        2,
        r,
        tmin,
        reca.t,
        Option::Some(reca),
    ));
    assert(list_hit_from(l2.objects@, 2, r, tmin, reca.t, Option::Some(reca)) == Option::Some(
        reca,
    ));
}

impl Hittable {
    /// Intersect a ray against this shape over the window `ray_t`.
    pub fn hit(&self, r: Ray, ray_t: Interval, rec: &mut HitRecord) -> (hb: bool)
        requires
            hittable_wf(*self),
            hit_args_ok(r, ray_t.min as int, ray_t.max as int),
        ensures
            hb == hit_s(*self, r, ray_t.min as int, ray_t.max as int).is_some(),
            hb ==> final(rec)@ == hit_s(*self, r, ray_t.min as int, ray_t.max as int).unwrap(),
            !hb ==> *final(rec) == *old(rec),
            hb ==> rec_ok(final(rec)@, r, ray_t.min as int, ray_t.max as int),
        decreases *self,
    {
        match self {
            Hittable::HittableList(h) => h.hit(r, ray_t, rec),
            Hittable::Sphere(s) => s.hit(r, ray_t, rec),
        }
    }
}

impl HittableList {
    pub fn new() -> (r: Self)
        ensures
            r.objects@.len() == 0,
    {
        HittableList { objects: Vec::new() }
    }

    /// Add an object, as `add` does.
    pub fn new_use(&mut self, object: Hittable)
        ensures
            final(self).objects@ == old(self).objects@.push(object),
    {
        self.add(object);
    }

    pub fn clear(&mut self)
        ensures
            final(self).objects@.len() == 0,
    {
        self.objects.clear();
    }

    pub fn add(&mut self, object: Hittable)
        ensures
            final(self).objects@ == old(self).objects@.push(object),
    {
        self.objects.push(object);
    }

    /// Intersect a ray against every child, keeping the nearest hit: the
    /// fold `list_hit_from` exactly.
    #[verifier::loop_isolation(false)]
    pub fn hit(&self, r: Ray, ray_t: Interval, rec: &mut HitRecord) -> (hb: bool)
        requires
            list_wf_from(self.objects@, 0),
            hit_args_ok(r, ray_t.min as int, ray_t.max as int),
        ensures
            hb == list_hit_from(
                self.objects@,
                0,
                r,
                ray_t.min as int,
                ray_t.max as int,
                Option::None,
            ).is_some(),
            hb ==> Option::Some(final(rec)@) == list_hit_from(
                self.objects@,
                0,
                r,
                ray_t.min as int,
                ray_t.max as int,
                Option::None,
            ),
            !hb ==> *final(rec) == *old(rec),
            hb ==> rec_ok(final(rec)@, r, ray_t.min as int, ray_t.max as int),
        decreases *self,
    {
        let mut temp_rec = HitRecord::new();
        let mut hit_anything = false;
        let mut closest_so_far = ray_t.max;

        let ghost goal = list_hit_from(
            self.objects@,
            0,
            r,
            ray_t.min as int,
            ray_t.max as int,
            Option::None,
        );
        let mut idx: usize = 0;
        while idx < self.objects.len()
            invariant
                0 <= idx <= self.objects@.len(),
                closest_so_far <= ray_t.max,
                hit_anything ==> closest_so_far == rec.t,
                hit_anything ==> rec_ok(rec@, r, ray_t.min as int, ray_t.max as int),
                !hit_anything ==> closest_so_far == ray_t.max,
                !hit_anything ==> *rec == *old(rec),
                goal == list_hit_from(
                    self.objects@,
                    idx as int,
                    r,
                    ray_t.min as int,
                    closest_so_far as int,
                    if hit_anything {
                        Option::Some(rec@)
                    } else {
                        Option::<HitRecS>::None
                    },
                ),
            decreases self.objects@.len() - idx,
        {
            proof {
                lemma_list_wf_index(self.objects@, 0, idx as int);
            }
            let object = &self.objects[idx];
            if object.hit(r, Interval::new_use(ray_t.min, closest_so_far), &mut temp_rec) {
                hit_anything = true;
                closest_so_far = temp_rec.t;
                *rec = temp_rec;
            }
            idx = idx + 1;
        }

        hit_anything
    }
}

impl Default for HittableList {
    /// An empty list, as `new` builds it.
    fn default() -> (r: Self)
        ensures
            r.objects@.len() == 0,
    {
        Self::new()
    }
}

} // verus!
